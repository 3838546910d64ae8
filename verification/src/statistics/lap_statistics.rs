//! Laps: a lap ends every given number of targets of one kind (key strokes, ideal key
//! strokes, spells or chunks), and its end is located among the targets of every kind.
use vstd::prelude::*;

use super::multi_target_position_convert::{positive_counts, BaseTarget, MultiTargetDeltaConverter};
use super::statistics_counter::sat_add;
use super::LapRequest;
use crate::chunk::key_stroke_candidate::KeyStrokeElementCount;
use crate::primitives::{Duration, NonZeroUsize};
use crate::vocabulary::{convert_spell_positions_to_view_positions, ViewPosition};

verus! {

/// `a - b`, or 0 when `b` is larger.
pub open spec fn sat_sub(a: int, b: int) -> int {
    if a >= b {
        a - b
    } else {
        0
    }
}

/// The position of a lap end `delta` targets after the first `base` ones.
pub open spec fn lap_end_position(base: int, delta: int) -> int {
    sat_sub(sat_add(base, delta), 1)
}

/// The deltas, from `whole` targets, at which laps of `t` targets end among `delta` more
/// targets: every `d` in `1..=delta` with `whole + d` a multiple of `t`, in order.
pub open spec fn lap_end_deltas(t: int, whole: int, delta: int) -> Seq<int> {
    let first = t - whole % t;
    if first <= delta {
        Seq::new(((delta - first) / t + 1) as nat, |i: int| first + i * t)
    } else {
        Seq::empty()
    }
}

/// A lap that has ended: when, and where among the targets of every kind.
#[derive(Debug, Clone, Copy, PartialEq, Eq, Hash)]
pub struct SingleFinishedLapInfo {
    elapsed_time: Duration,
    key_stroke_lap_end_position: usize,
    ideal_key_stroke_lap_end_position: usize,
    spell_lap_end_position: usize,
    chunk_lap_end_position: usize,
    view_lap_end_position: usize,
}

impl SingleFinishedLapInfo {
    pub closed spec fn spec_elapsed_time(self) -> Duration {
        self.elapsed_time
    }

    /// The lap end positions, in the order key stroke, ideal key stroke, spell, chunk, view.
    pub closed spec fn spec_positions(self) -> (usize, usize, usize, usize, usize) {
        (
            self.key_stroke_lap_end_position,
            self.ideal_key_stroke_lap_end_position,
            self.spell_lap_end_position,
            self.chunk_lap_end_position,
            self.view_lap_end_position,
        )
    }

    pub fn new(
        elapsed_time: Duration,
        key_stroke_lap_end_position: usize,
        ideal_key_stroke_lap_end_position: usize,
        spell_lap_end_position: usize,
        chunk_lap_end_position: usize,
        view_lap_end_position: usize,
    ) -> (r: Self)
        ensures
            r.spec_elapsed_time() == elapsed_time,
            r.spec_positions() == (
                key_stroke_lap_end_position,
                ideal_key_stroke_lap_end_position,
                spell_lap_end_position,
                chunk_lap_end_position,
                view_lap_end_position,
            ),
    {
        SingleFinishedLapInfo {
            elapsed_time,
            key_stroke_lap_end_position,
            ideal_key_stroke_lap_end_position,
            spell_lap_end_position,
            chunk_lap_end_position,
            view_lap_end_position,
        }
    }

    /// Returns the time since typing started at which this lap ended.
    pub fn elapsed_time(&self) -> (r: Duration)
        ensures
            r == self.spec_elapsed_time(),
    {
        self.elapsed_time
    }

    /// Returns the lap end positions, in the order key stroke, ideal key stroke, spell, chunk,
    /// view.
    pub fn positions(&self) -> (r: (usize, usize, usize, usize, usize))
        ensures
            r == self.spec_positions(),
    {
        (
            self.key_stroke_lap_end_position,
            self.ideal_key_stroke_lap_end_position,
            self.spell_lap_end_position,
            self.chunk_lap_end_position,
            self.view_lap_end_position,
        )
    }
}

/// A lap that has not ended yet: where it will end among the targets of every kind.
#[derive(Debug, Clone, Copy, PartialEq, Eq, Hash)]
pub struct SingleUnfinishedLapInfo {
    key_stroke_lap_end_position: usize,
    ideal_key_stroke_lap_end_position: usize,
    spell_lap_end_position: usize,
    chunk_lap_end_position: usize,
    view_lap_end_position: usize,
}

impl SingleUnfinishedLapInfo {
    /// The lap end positions, in the order key stroke, ideal key stroke, spell, chunk, view.
    pub closed spec fn spec_positions(self) -> (usize, usize, usize, usize, usize) {
        (
            self.key_stroke_lap_end_position,
            self.ideal_key_stroke_lap_end_position,
            self.spell_lap_end_position,
            self.chunk_lap_end_position,
            self.view_lap_end_position,
        )
    }

    pub fn new(
        key_stroke_lap_end_position: usize,
        ideal_key_stroke_lap_end_position: usize,
        spell_lap_end_position: usize,
        chunk_lap_end_position: usize,
        view_lap_end_position: usize,
    ) -> (r: Self)
        ensures
            r.spec_positions() == (
                key_stroke_lap_end_position,
                ideal_key_stroke_lap_end_position,
                spell_lap_end_position,
                chunk_lap_end_position,
                view_lap_end_position,
            ),
    {
        SingleUnfinishedLapInfo {
            key_stroke_lap_end_position,
            ideal_key_stroke_lap_end_position,
            spell_lap_end_position,
            chunk_lap_end_position,
            view_lap_end_position,
        }
    }

    /// Returns the lap end positions, in the order key stroke, ideal key stroke, spell, chunk,
    /// view.
    pub fn positions(&self) -> (r: (usize, usize, usize, usize, usize))
        ensures
            r == self.spec_positions(),
    {
        (
            self.key_stroke_lap_end_position,
            self.ideal_key_stroke_lap_end_position,
            self.spell_lap_end_position,
            self.chunk_lap_end_position,
            self.view_lap_end_position,
        )
    }
}

/// Which of the five lap end positions.
pub open spec fn pick_position(p: (usize, usize, usize, usize, usize), which: int) -> usize {
    if which == 0 {
        p.0
    } else if which == 1 {
        p.1
    } else if which == 2 {
        p.2
    } else if which == 3 {
        p.3
    } else {
        p.4
    }
}

/// The laps of a typing session: those ended, then those not ended yet.
#[derive(Debug, Clone, PartialEq, Eq, Hash)]
pub struct LapInfo {
    finished_laps: Vec<SingleFinishedLapInfo>,
    unfinished_laps: Vec<SingleUnfinishedLapInfo>,
}

impl LapInfo {
    pub closed spec fn spec_finished(self) -> Seq<SingleFinishedLapInfo> {
        self.finished_laps@
    }

    pub closed spec fn spec_unfinished(self) -> Seq<SingleUnfinishedLapInfo> {
        self.unfinished_laps@
    }

    /// The lap end positions of one kind (0 key stroke, 1 ideal key stroke, 2 spell, 3 chunk,
    /// 4 view) of every lap, in order.
    pub open spec fn spec_lap_end_positions(self, which: int) -> Seq<usize> {
        Seq::new(self.spec_finished().len(), |i: int| pick_position(self.spec_finished()[i].spec_positions(), which))
            + Seq::new(self.spec_unfinished().len(), |i: int| pick_position(self.spec_unfinished()[i].spec_positions(), which))
    }

    pub fn new(finished_laps: Vec<SingleFinishedLapInfo>, unfinished_laps: Vec<SingleUnfinishedLapInfo>) -> (r: Self)
        ensures
            r.spec_finished() == finished_laps@,
            r.spec_unfinished() == unfinished_laps@,
    {
        LapInfo { finished_laps, unfinished_laps }
    }

    /// The duration of the ended lap `i` in nanoseconds: the time between its end and the end
    /// of the lap before it (or the start), 0 if that came later.
    pub open spec fn spec_lap_time_nanos(self, i: int) -> int {
        sat_sub(
            self.spec_finished()[i].spec_elapsed_time().spec_nanos(),
            if i == 0 {
                0
            } else {
                self.spec_finished()[i - 1].spec_elapsed_time().spec_nanos()
            },
        )
    }

    /// The sum of the durations of the first `k` ended laps in nanoseconds.
    pub open spec fn spec_lap_times_sum(self, k: int) -> int
        decreases k,
    {
        if k <= 0 {
            0
        } else {
            self.spec_lap_times_sum(k - 1) + self.spec_lap_time_nanos(k - 1)
        }
    }

    /// Returns the laps that have ended.
    pub fn finished_laps(&self) -> (r: &[SingleFinishedLapInfo])
        ensures
            r@ == self.spec_finished(),
    {
        self.finished_laps.as_slice()
    }

    /// Returns the laps not ended yet.
    pub fn unfinished_laps(&self) -> (r: &[SingleUnfinishedLapInfo])
        ensures
            r@ == self.spec_unfinished(),
    {
        self.unfinished_laps.as_slice()
    }

    /// Returns the times since typing started at which the laps ended.
    pub fn elapsed_times(&self) -> (r: Vec<Duration>)
        ensures
            r@.len() == self.spec_finished().len(),
            forall|i: int| 0 <= i < r@.len() ==> #[trigger] r@[i] == self.spec_finished()[i].spec_elapsed_time(),
    {
        let mut r: Vec<Duration> = Vec::new();
        let mut i: usize = 0;
        while i < self.finished_laps.len()
            invariant
                i <= self.spec_finished().len(),
                r@.len() == i,
                forall|k: int| 0 <= k < i ==> #[trigger] r@[k] == self.spec_finished()[k].spec_elapsed_time(),
            decreases self.spec_finished().len() - i,
        {
            r.push(self.finished_laps[i].elapsed_time());
            i = i + 1;
        }
        r
    }

    /// Returns the duration of every ended lap: the time between its end and the end of the
    /// lap before it (or the start), 0 if that came later.
    pub fn lap_times(&self) -> (r: Vec<Duration>)
        ensures
            r@.len() == self.spec_finished().len(),
            forall|i: int| 0 <= i < r@.len() ==> (#[trigger] r@[i]).spec_nanos() == self.spec_lap_time_nanos(i),
    {
        let times = self.elapsed_times();
        let mut r: Vec<Duration> = Vec::new();
        let mut prev = Duration::zero();
        let mut i: usize = 0;
        while i < times.len()
            invariant
                i <= times@.len(),
                times@.len() == self.spec_finished().len(),
                forall|k: int| 0 <= k < times@.len() ==> #[trigger] times@[k] == self.spec_finished()[k].spec_elapsed_time(),
                prev.spec_nanos() == if i == 0 {
                    0
                } else {
                    times@[i - 1].spec_nanos()
                },
                r@.len() == i,
                forall|k: int|
                    0 <= k < i ==> (#[trigger] r@[k]).spec_nanos() == sat_sub(
                        times@[k].spec_nanos(),
                        if k == 0 {
                            0
                        } else {
                            times@[k - 1].spec_nanos()
                        },
                    ),
            decreases times@.len() - i,
        {
            let current = times[i];
            r.push(current.saturating_sub(&prev));
            prev = current;
            i = i + 1;
        }
        r
    }

    /// The lap end positions of one kind (0 key stroke, 1 ideal key stroke, 2 spell, 3 chunk,
    /// 4 view) of every lap.
    fn lap_end_positions(&self, which: usize) -> (r: Vec<usize>)
        requires
            which <= 4,
        ensures
            r@ == self.spec_lap_end_positions(which as int),
    {
        let mut r: Vec<usize> = Vec::new();
        let mut i: usize = 0;
        let nf = self.finished_laps.len();
        while i < nf
            invariant
                i <= nf,
                nf == self.spec_finished().len(),
                r@ =~= Seq::new(i as nat, |k: int| pick_position(self.spec_finished()[k].spec_positions(), which as int)),
            decreases nf - i,
        {
            let p = self.finished_laps[i].positions();
            let x = if which == 0 {
                p.0
            } else if which == 1 {
                p.1
            } else if which == 2 {
                p.2
            } else if which == 3 {
                p.3
            } else {
                p.4
            };
            r.push(x);
            i = i + 1;
        }
        let mut j: usize = 0;
        let nu = self.unfinished_laps.len();
        while j < nu
            invariant
                j <= nu,
                nu == self.spec_unfinished().len(),
                nf == self.spec_finished().len(),
                r@ =~= Seq::new(nf as nat, |k: int| pick_position(self.spec_finished()[k].spec_positions(), which as int))
                    + Seq::new(j as nat, |k: int| pick_position(self.spec_unfinished()[k].spec_positions(), which as int)),
            decreases nu - j,
        {
            let p = self.unfinished_laps[j].positions();
            let x = if which == 0 {
                p.0
            } else if which == 1 {
                p.1
            } else if which == 2 {
                p.2
            } else if which == 3 {
                p.3
            } else {
                p.4
            };
            r.push(x);
            j = j + 1;
        }
        r
    }

    /// Returns the key stroke position of the end of every lap.
    pub fn key_stroke_lap_end_positions(&self) -> (r: Vec<usize>)
        ensures
            r@ == self.spec_lap_end_positions(0),
    {
        self.lap_end_positions(0)
    }

    /// Returns the ideal key stroke position of the end of every lap.
    pub fn ideal_key_stroke_lap_end_positions(&self) -> (r: Vec<usize>)
        ensures
            r@ == self.spec_lap_end_positions(1),
    {
        self.lap_end_positions(1)
    }

    /// Returns the spell position of the end of every lap.
    pub fn spell_lap_end_positions(&self) -> (r: Vec<usize>)
        ensures
            r@ == self.spec_lap_end_positions(2),
    {
        self.lap_end_positions(2)
    }

    /// Returns the chunk position of the end of every lap.
    pub fn chunk_lap_end_positions(&self) -> (r: Vec<usize>)
        ensures
            r@ == self.spec_lap_end_positions(3),
    {
        self.lap_end_positions(3)
    }

    /// Returns the view position of the end of every lap.
    pub fn view_lap_end_positions(&self) -> (r: Vec<usize>)
        ensures
            r@ == self.spec_lap_end_positions(4),
    {
        self.lap_end_positions(4)
    }
}

/// The lap statistics of one kind of target: how many targets make a lap (for the kind laps
/// are taken by), when laps ended, where they end, and how many targets there are and are
/// finished. Counts saturate at `usize::MAX`.
#[derive(Debug, Clone, PartialEq, Eq, Hash)]
pub struct PrimitiveLapStatisticsBuilder {
    targets_per_lap: Option<NonZeroUsize>,
    lap_end_time: Option<Vec<Duration>>,
    lap_end_position: Vec<usize>,
    finished_count: usize,
    whole_count: usize,
}

impl PrimitiveLapStatisticsBuilder {
    pub closed spec fn spec_targets_per_lap(self) -> Option<NonZeroUsize> {
        self.targets_per_lap
    }

    pub closed spec fn spec_lap_end_time(self) -> Option<Seq<Duration>> {
        match self.lap_end_time {
            Some(v) => Some(v@),
            None => None,
        }
    }

    pub closed spec fn spec_lap_end_positions(self) -> Seq<usize> {
        self.lap_end_position@
    }

    pub closed spec fn spec_finished(self) -> int {
        self.finished_count as int
    }

    pub closed spec fn spec_whole(self) -> int {
        self.whole_count as int
    }

    /// The counts fit in `usize`.
    pub proof fn lemma_counts_bounded(self)
        ensures
            0 <= self.spec_finished() <= usize::MAX,
            0 <= self.spec_whole() <= usize::MAX,
    {
    }

    /// Laps are taken by this kind exactly when lap end times are kept.
    pub open spec fn wf(self) -> bool {
        self.spec_targets_per_lap() is Some <==> self.spec_lap_end_time() is Some
    }

    pub fn new(
        finished_count: usize,
        whole_count: usize,
        targets_per_lap: Option<NonZeroUsize>,
        lap_end_time: Option<Vec<Duration>>,
        lap_end_position: Vec<usize>,
    ) -> (r: Self)
        requires
            targets_per_lap is Some <==> lap_end_time is Some,
        ensures
            r.wf(),
            r.spec_finished() == finished_count,
            r.spec_whole() == whole_count,
            r.spec_targets_per_lap() == targets_per_lap,
            r.spec_lap_end_time() == (match lap_end_time {
                Some(v) => Some(v@),
                None => None::<Seq<Duration>>,
            }),
            r.spec_lap_end_positions() == lap_end_position@,
    {
        PrimitiveLapStatisticsBuilder { targets_per_lap, lap_end_time, lap_end_position, finished_count, whole_count }
    }

    /// Returns the number of targets.
    pub fn whole_count(&self) -> (r: usize)
        ensures
            r == self.spec_whole(),
    {
        self.whole_count
    }

    /// Returns the number of finished targets.
    pub fn finished_count(&self) -> (r: usize)
        ensures
            r == self.spec_finished(),
    {
        self.finished_count
    }

    /// Returns the number of targets of a lap, for the kind laps are taken by.
    pub fn targets_per_lap(&self) -> (r: Option<NonZeroUsize>)
        ensures
            r == self.spec_targets_per_lap(),
    {
        self.targets_per_lap
    }

    /// Returns the times at which laps ended, for the kind laps are taken by.
    pub fn lap_end_time(&self) -> (r: Option<&Vec<Duration>>)
        ensures
            match r {
                Some(v) => self.spec_lap_end_time() == Some(v@),
                None => self.spec_lap_end_time() is None,
            },
    {
        match &self.lap_end_time {
            Some(v) => Some(v),
            None => None,
        }
    }

    /// Returns the positions of the lap ends.
    pub fn lap_end_positions(&self) -> (r: &Vec<usize>)
        ensures
            r@ == self.spec_lap_end_positions(),
    {
        &self.lap_end_position
    }

    /// Takes `delta` more targets into account. For the kind laps are taken by, returns the
    /// deltas at which laps end among them, if any.
    ///
    /// For example, with 2 targets, 5 targets a lap and 8 more targets, laps end 3 and 8
    /// targets further.
    pub fn on_target_add(&mut self, delta: usize) -> (r: Option<Vec<usize>>)
        ensures
            final(self).spec_whole() == sat_add(old(self).spec_whole(), delta as int),
            final(self).spec_finished() == old(self).spec_finished(),
            final(self).spec_targets_per_lap() == old(self).spec_targets_per_lap(),
            final(self).spec_lap_end_time() == old(self).spec_lap_end_time(),
            final(self).spec_lap_end_positions() == old(self).spec_lap_end_positions(),
            match old(self).spec_targets_per_lap() {
                None => r is None,
                Some(t) => {
                    let ends = lap_end_deltas(t.spec_get() as int, old(self).spec_whole(), delta as int);
                    &&& (r is Some <==> ends.len() > 0)
                    &&& (r matches Some(v) ==> v@.len() == ends.len() && forall|i: int|
                        0 <= i < ends.len() ==> #[trigger] v@[i] == ends[i])
                },
            },
    {
        let mut result: Option<Vec<usize>> = None;
        match self.targets_per_lap {
            None => {},
            Some(tpl) => {
                let t = tpl.get();
                let first = t - self.whole_count % t;
                let ghost ends = lap_end_deltas(t as int, self.whole_count as int, delta as int);
                let mut v: Vec<usize> = Vec::new();
                let mut d = first;
                let mut stop = false;
                assert(first + v@.len() * t == first) by (nonlinear_arith)
                    requires
                        v@.len() == 0;
                while !stop && d <= delta
                    invariant
                        t > 0,
                        1 <= first <= t,
                        first == t - self.whole_count % t,
                        ends == lap_end_deltas(t as int, self.whole_count as int, delta as int),
                        !stop ==> d == first + v@.len() * t,
                        stop ==> first + v@.len() * t > delta,
                        v@.len() > 0 ==> first + (v@.len() - 1) * t <= delta,
                        forall|i: int| 0 <= i < v@.len() ==> #[trigger] v@[i] == first + i * t,
                    decreases delta + 1 - v@.len(), (if stop { 0int } else { 1int }),
                {
                    let ghost k = v@.len() as int;
                    v.push(d);
                    assert(first + (k + 1) * t == first + k * t + t) by (nonlinear_arith);
                    assert(k * t >= 0 && k + 1 <= first + k * t + 1) by (nonlinear_arith)
                        requires
                            t >= 1,
                            k >= 0,
                            first >= 1;
                    if d > usize::MAX - t {
                        stop = true;
                    } else {
                        d = d + t;
                    }
                }
                proof {
                    let n = v@.len() as int;
                    let w = self.whole_count as int;
                    assert(first == t - w % (t as int));
                    if n > 0 {
                        assert(first <= delta);
                        assert(first + n * t > delta);
                        assert((delta - first) / (t as int) + 1 == n) by (nonlinear_arith)
                            requires
                                first + (n - 1) * t <= delta,
                                first + n * t > delta,
                                t >= 1,
                                n >= 1,
                                first <= delta;
                        assert forall|i: int| 0 <= i < ends.len() implies #[trigger] v@[i] == ends[i] by {}
                    } else {
                        assert(first > delta);
                    }
                }
                if v.len() > 0 {
                    result = Some(v);
                }
            },
        }
        self.whole_count = self.whole_count.saturating_add(delta);
        result
    }

    /// Takes `delta` more finished targets into account at `elapsed_time`: for the kind laps
    /// are taken by, every lap ended by them ends at that time.
    pub fn on_finished(&mut self, delta: usize, elapsed_time: Duration)
        requires
            old(self).wf(),
        ensures
            finished_by(*final(self), *old(self), delta as int, elapsed_time),
            final(self).wf(),
            final(self).spec_finished() == sat_add(old(self).spec_finished(), delta as int),
            final(self).spec_whole() == old(self).spec_whole(),
            final(self).spec_targets_per_lap() == old(self).spec_targets_per_lap(),
            final(self).spec_lap_end_positions() == old(self).spec_lap_end_positions(),
            match old(self).spec_targets_per_lap() {
                None => final(self).spec_lap_end_time() is None,
                Some(t) => {
                    let n = sat_add(old(self).spec_finished(), delta as int) / (t.spec_get() as int)
                        - old(self).spec_finished() / (t.spec_get() as int);
                    final(self).spec_lap_end_time() == Some(
                        old(self).spec_lap_end_time()->0 + Seq::new(n as nat, |i: int| elapsed_time),
                    )
                },
            },
    {
        let new_finished = self.finished_count.saturating_add(delta);
        match self.targets_per_lap {
            None => {},
            Some(tpl) => {
                let t = tpl.get();
                assert(self.finished_count / t <= new_finished / t) by (nonlinear_arith)
                    requires
                        self.finished_count <= new_finished,
                        t >= 1;
                let count = new_finished / t - self.finished_count / t;
                let mut times = self.lap_end_time.take().unwrap();
                let ghost before = times@;
                let mut i: usize = 0;
                while i < count
                    invariant
                        i <= count,
                        times@ =~= before + Seq::new(i as nat, |k: int| elapsed_time),
                    decreases count - i,
                {
                    times.push(elapsed_time);
                    i = i + 1;
                }
                self.lap_end_time = Some(times);
            },
        }
        self.finished_count = new_finished;
    }

    /// Adds lap ends at the deltas `lap_end_deltas` after `base_whole_count` targets.
    pub fn add_lap_ends(&mut self, lap_end_deltas: &[usize], base_whole_count: usize)
        ensures
            final(self).spec_lap_end_positions() == old(self).spec_lap_end_positions() + Seq::new(
                lap_end_deltas@.len(),
                |i: int| lap_end_position(base_whole_count as int, lap_end_deltas@[i] as int) as usize,
            ),
            final(self).spec_whole() == old(self).spec_whole(),
            final(self).spec_finished() == old(self).spec_finished(),
            final(self).spec_targets_per_lap() == old(self).spec_targets_per_lap(),
            final(self).spec_lap_end_time() == old(self).spec_lap_end_time(),
    {
        let ghost before = self.lap_end_position@;
        let mut i: usize = 0;
        while i < lap_end_deltas.len()
            invariant
                i <= lap_end_deltas@.len(),
                self.lap_end_position@ =~= before + Seq::new(
                    i as nat,
                    |k: int| lap_end_position(base_whole_count as int, lap_end_deltas@[k] as int) as usize,
                ),
                self.whole_count == old(self).whole_count,
                self.finished_count == old(self).finished_count,
                self.targets_per_lap == old(self).targets_per_lap,
                self.lap_end_time == old(self).lap_end_time,
            decreases lap_end_deltas@.len() - i,
        {
            let p = base_whole_count.saturating_add(lap_end_deltas[i]).saturating_sub(1);
            self.lap_end_position.push(p);
            i = i + 1;
        }
    }
}

/// `r` is the lap information of the lap statistics `b`, with `vps` the view positions of the
/// spell characters.
pub open spec fn is_lap_info_of(r: LapInfo, b: LapStatiticsBuilder, vps: Seq<ViewPosition>) -> bool {
    let times = b.spec_requested().spec_lap_end_time()->0;
    let n = b.spec_key_stroke().spec_lap_end_positions().len();
    let f = if times.len() <= n { times.len() } else { n };
    &&& r.spec_finished().len() == f
    &&& r.spec_unfinished().len() == n - f
    &&& forall|i: int| 0 <= i < f ==> (#[trigger] r.spec_finished()[i]).spec_elapsed_time() == times[i]
    &&& r.spec_lap_end_positions(0) == b.spec_key_stroke().spec_lap_end_positions()
    &&& r.spec_lap_end_positions(1) == b.spec_ideal_key_stroke().spec_lap_end_positions()
    &&& r.spec_lap_end_positions(2) == b.spec_spell().spec_lap_end_positions()
    &&& r.spec_lap_end_positions(3) == b.spec_chunk().spec_lap_end_positions()
    &&& forall|i: int| 0 <= i < n ==> #[trigger] r.spec_lap_end_positions(4)[i] == view_at(
        crate::vocabulary::view_positions_for(b.spec_spell().spec_lap_end_positions(), vps),
        vps.len() > 0,
        i,
    )
    &&& r.spec_lap_end_positions(4).len() == n
}

/// `new` is `old` after `delta` more finished targets at `elapsed_time`: for the kind laps
/// are taken by, every lap ended by them ends at that time.
pub open spec fn finished_by(
    new: PrimitiveLapStatisticsBuilder,
    old: PrimitiveLapStatisticsBuilder,
    delta: int,
    elapsed_time: Duration,
) -> bool {
    &&& new.wf()
    &&& new.spec_finished() == sat_add(old.spec_finished(), delta)
    &&& new.spec_whole() == old.spec_whole()
    &&& new.spec_targets_per_lap() == old.spec_targets_per_lap()
    &&& new.spec_lap_end_positions() == old.spec_lap_end_positions()
    &&& match old.spec_targets_per_lap() {
        None => new.spec_lap_end_time() is None,
        Some(t) => {
            let n = sat_add(old.spec_finished(), delta) / (t.spec_get() as int) - old.spec_finished() / (
            t.spec_get() as int);
            new.spec_lap_end_time() == Some(old.spec_lap_end_time()->0 + Seq::new(n as nat, |i: int| elapsed_time))
        },
    }
}

/// The delta `d` of the kind laps are taken by, converted by `conv` into a delta of the kind
/// `which` (0 key stroke, 1 ideal key stroke, 2 spell, 3 chunk).
pub open spec fn convert_delta(conv: MultiTargetDeltaConverter, which: int, d: int) -> int {
    if which == 0 {
        conv.spec_key_stroke_delta(d)
    } else if which == 1 {
        conv.spec_ideal_key_stroke_delta(d)
    } else if which == 2 {
        conv.spec_spell_delta(d)
    } else {
        1
    }
}

/// `new` is `old` after `delta` more targets, with lap ends at the deltas `ends` converted by
/// `conv` into deltas of the kind `which`.
pub open spec fn added_by(
    new: PrimitiveLapStatisticsBuilder,
    old: PrimitiveLapStatisticsBuilder,
    delta: int,
    ends: Seq<int>,
    conv: MultiTargetDeltaConverter,
    which: int,
) -> bool {
    &&& new.spec_whole() == sat_add(old.spec_whole(), delta)
    &&& new.spec_finished() == old.spec_finished()
    &&& new.spec_targets_per_lap() == old.spec_targets_per_lap()
    &&& new.spec_lap_end_time() == old.spec_lap_end_time()
    &&& new.spec_lap_end_positions().len() == old.spec_lap_end_positions().len() + ends.len()
    &&& forall|i: int|
        0 <= i < old.spec_lap_end_positions().len() ==> #[trigger] new.spec_lap_end_positions()[i]
            == old.spec_lap_end_positions()[i]
    &&& forall|i: int|
        0 <= i < ends.len() ==> #[trigger] new.spec_lap_end_positions()[old.spec_lap_end_positions().len() + i]
            == lap_end_position(old.spec_whole(), convert_delta(conv, which, ends[i])) as usize
}

/// The index in the ideal candidate that the key stroke index `i` of a candidate of `actual`
/// key strokes stands for, when the ideal candidate has `ideal` key strokes: the key strokes
/// are scaled, rounding up.
pub open spec fn spec_ideal_index(i: int, ideal: int, actual: int) -> int {
    crate::utility::spec_ceil_div((i + 1) * ideal, actual) - 1
}

/// The lap statistics of a typing session, for every kind of target.
#[derive(Debug, Clone, PartialEq, Eq, Hash)]
pub struct LapStatiticsBuilder {
    key_stroke: PrimitiveLapStatisticsBuilder,
    ideal_key_stroke: PrimitiveLapStatisticsBuilder,
    spell: PrimitiveLapStatisticsBuilder,
    chunk: PrimitiveLapStatisticsBuilder,
    lap_request: LapRequest,
    this_candidate_key_stroke_count: Option<usize>,
    this_ideal_candidate_key_stroke_count: Option<usize>,
    in_candidate_key_stroke_count: usize,
    last_key_stroke_elapsed_time: Option<Duration>,
}

impl LapStatiticsBuilder {
    pub closed spec fn spec_key_stroke(self) -> PrimitiveLapStatisticsBuilder {
        self.key_stroke
    }

    pub closed spec fn spec_ideal_key_stroke(self) -> PrimitiveLapStatisticsBuilder {
        self.ideal_key_stroke
    }

    pub closed spec fn spec_spell(self) -> PrimitiveLapStatisticsBuilder {
        self.spell
    }

    pub closed spec fn spec_chunk(self) -> PrimitiveLapStatisticsBuilder {
        self.chunk
    }

    pub closed spec fn spec_request(self) -> LapRequest {
        self.lap_request
    }

    pub closed spec fn spec_this_count(self) -> Option<usize> {
        self.this_candidate_key_stroke_count
    }

    pub closed spec fn spec_this_ideal_count(self) -> Option<usize> {
        self.this_ideal_candidate_key_stroke_count
    }

    pub closed spec fn spec_in_candidate(self) -> int {
        self.in_candidate_key_stroke_count as int
    }

    /// The number of key strokes typed in the candidate being typed fits in `usize`.
    pub proof fn lemma_in_candidate_bounded(self)
        ensures
            0 <= self.spec_in_candidate() <= usize::MAX,
    {
    }

    pub closed spec fn spec_last_time(self) -> Option<Duration> {
        self.last_key_stroke_elapsed_time
    }

    /// The statistics of the kind laps are taken by.
    pub open spec fn spec_requested(self) -> PrimitiveLapStatisticsBuilder {
        match self.spec_request().spec_base() {
            BaseTarget::KeyStroke => self.spec_key_stroke(),
            BaseTarget::IdealKeyStroke => self.spec_ideal_key_stroke(),
            BaseTarget::Spell => self.spec_spell(),
            BaseTarget::Chunk => self.spec_chunk(),
        }
    }

    /// Only the kind laps are taken by has a number of targets of a lap, the requested one;
    /// every kind has as many lap ends; the key stroke counts of the chunk being typed are
    /// positive.
    pub open spec fn wf(self) -> bool {
        let b = self.spec_request().spec_base();
        let t = Some(self.spec_request().spec_targets_per_lap());
        &&& self.spec_key_stroke().wf()
        &&& self.spec_ideal_key_stroke().wf()
        &&& self.spec_spell().wf()
        &&& self.spec_chunk().wf()
        &&& self.spec_key_stroke().spec_targets_per_lap() == (if b is KeyStroke { t } else { None })
        &&& self.spec_ideal_key_stroke().spec_targets_per_lap() == (if b is IdealKeyStroke { t } else { None })
        &&& self.spec_spell().spec_targets_per_lap() == (if b is Spell { t } else { None })
        &&& self.spec_chunk().spec_targets_per_lap() == (if b is Chunk { t } else { None })
        &&& self.spec_ideal_key_stroke().spec_lap_end_positions().len() == self.spec_key_stroke().spec_lap_end_positions().len()
        &&& self.spec_spell().spec_lap_end_positions().len() == self.spec_key_stroke().spec_lap_end_positions().len()
        &&& self.spec_chunk().spec_lap_end_positions().len() == self.spec_key_stroke().spec_lap_end_positions().len()
        &&& (self.spec_this_count() matches Some(c) ==> c > 0)
        &&& (self.spec_this_ideal_count() matches Some(c) ==> c > 0)
    }

    /// Lap statistics with no target yet, taking laps as `lap_request` asks.
    pub fn new(lap_request: LapRequest) -> (r: Self)
        ensures
            r.wf(),
            r.spec_request() == lap_request,
            r.spec_key_stroke().spec_whole() == 0 && r.spec_key_stroke().spec_finished() == 0,
            r.spec_ideal_key_stroke().spec_whole() == 0 && r.spec_ideal_key_stroke().spec_finished() == 0,
            r.spec_spell().spec_whole() == 0 && r.spec_spell().spec_finished() == 0,
            r.spec_chunk().spec_whole() == 0 && r.spec_chunk().spec_finished() == 0,
            r.spec_key_stroke().spec_lap_end_positions().len() == 0,
            r.spec_key_stroke().spec_lap_end_time() == (if lap_request is KeyStroke { Some(Seq::<Duration>::empty()) } else { None }),
            r.spec_ideal_key_stroke().spec_lap_end_time() == (if lap_request is IdealKeyStroke { Some(Seq::<Duration>::empty()) } else { None }),
            r.spec_spell().spec_lap_end_time() == (if lap_request is Spell { Some(Seq::<Duration>::empty()) } else { None }),
            r.spec_chunk().spec_lap_end_time() == (if lap_request is Chunk { Some(Seq::<Duration>::empty()) } else { None }),
            r.spec_this_count() is None,
            r.spec_this_ideal_count() is None,
            r.spec_in_candidate() == 0,
            r.spec_last_time() is None,
    {
        let t = lap_request.targets_per_lap();
        let base = lap_request.construct_base_target();
        let ks = match base {
            BaseTarget::KeyStroke => PrimitiveLapStatisticsBuilder::new(0, 0, Some(t), Some(Vec::new()), Vec::new()),
            _ => PrimitiveLapStatisticsBuilder::new(0, 0, None, None, Vec::new()),
        };
        let iks = match base {
            BaseTarget::IdealKeyStroke => PrimitiveLapStatisticsBuilder::new(0, 0, Some(t), Some(Vec::new()), Vec::new()),
            _ => PrimitiveLapStatisticsBuilder::new(0, 0, None, None, Vec::new()),
        };
        let sp = match base {
            BaseTarget::Spell => PrimitiveLapStatisticsBuilder::new(0, 0, Some(t), Some(Vec::new()), Vec::new()),
            _ => PrimitiveLapStatisticsBuilder::new(0, 0, None, None, Vec::new()),
        };
        let ch = match base {
            BaseTarget::Chunk => PrimitiveLapStatisticsBuilder::new(0, 0, Some(t), Some(Vec::new()), Vec::new()),
            _ => PrimitiveLapStatisticsBuilder::new(0, 0, None, None, Vec::new()),
        };
        LapStatiticsBuilder {
            key_stroke: ks,
            ideal_key_stroke: iks,
            spell: sp,
            chunk: ch,
            lap_request,
            this_candidate_key_stroke_count: None,
            this_ideal_candidate_key_stroke_count: None,
            in_candidate_key_stroke_count: 0,
            last_key_stroke_elapsed_time: None,
        }
    }

    /// The lap end deltas of a chunk of these counts, among the targets of the kind laps are
    /// taken by.
    pub open spec fn spec_chunk_ends(
        self,
        key_stroke_element_count: KeyStrokeElementCount,
        ideal_key_stroke_element_count: KeyStrokeElementCount,
        spell_count: int,
    ) -> Seq<int> {
        let t = self.spec_request().spec_targets_per_lap().spec_get() as int;
        match self.spec_request().spec_base() {
            BaseTarget::KeyStroke => lap_end_deltas(t, self.spec_key_stroke().spec_whole(), key_stroke_element_count.spec_whole_count()),
            BaseTarget::IdealKeyStroke => lap_end_deltas(t, self.spec_ideal_key_stroke().spec_whole(), ideal_key_stroke_element_count.spec_whole_count()),
            BaseTarget::Spell => lap_end_deltas(t, self.spec_spell().spec_whole(), spell_count),
            BaseTarget::Chunk => lap_end_deltas(t, self.spec_chunk().spec_whole(), 1),
        }
    }

    /// Takes a chunk into account: its key stroke counts (as typed and ideal) and its spell
    /// count. Laps ending in it are located among the targets of every kind.
    #[verifier::rlimit(60)]
    pub fn on_add_chunk(
        &mut self,
        key_stroke_element_count: KeyStrokeElementCount,
        ideal_key_stroke_element_count: KeyStrokeElementCount,
        spell_count: usize,
    )
        requires
            old(self).wf(),
            key_stroke_element_count.fits_spell(spell_count as int),
            ideal_key_stroke_element_count.fits_spell(spell_count as int),
            positive_counts(key_stroke_element_count),
            positive_counts(ideal_key_stroke_element_count),
        ensures
            final(self).wf(),
            final(self).spec_request() == old(self).spec_request(),
            final(self).spec_this_count() == old(self).spec_this_count(),
            final(self).spec_this_ideal_count() == old(self).spec_this_ideal_count(),
            final(self).spec_in_candidate() == old(self).spec_in_candidate(),
            final(self).spec_last_time() == old(self).spec_last_time(),
            ({
                let ends = old(self).spec_chunk_ends(key_stroke_element_count, ideal_key_stroke_element_count, spell_count as int);
                let conv = MultiTargetDeltaConverter::spec_of(
                    spell_count,
                    ideal_key_stroke_element_count,
                    key_stroke_element_count,
                    old(self).spec_request().spec_base(),
                );
                &&& added_by(final(self).spec_key_stroke(), old(self).spec_key_stroke(), key_stroke_element_count.spec_whole_count(), ends, conv, 0)
                &&& added_by(final(self).spec_ideal_key_stroke(), old(self).spec_ideal_key_stroke(), ideal_key_stroke_element_count.spec_whole_count(), ends, conv, 1)
                &&& added_by(final(self).spec_spell(), old(self).spec_spell(), spell_count as int, ends, conv, 2)
                &&& added_by(final(self).spec_chunk(), old(self).spec_chunk(), 1, ends, conv, 3)
            }),
    {
        let ghost ends = self.spec_chunk_ends(key_stroke_element_count, ideal_key_stroke_element_count, spell_count as int);
        let tpl = self.lap_request.targets_per_lap();
        let tv = tpl.get();
        let ghost old_ks = self.key_stroke;
        let ghost old_iks = self.ideal_key_stroke;
        let ghost old_sp = self.spell;
        let ghost old_ch = self.chunk;
        let ks_whole = self.key_stroke.whole_count();
        let ksle = self.key_stroke.on_target_add(key_stroke_element_count.whole_count());
        let iks_whole = self.ideal_key_stroke.whole_count();
        let iksle = self.ideal_key_stroke.on_target_add(ideal_key_stroke_element_count.whole_count());
        let s_whole = self.spell.whole_count();
        let sle = self.spell.on_target_add(spell_count);
        let c_whole = self.chunk.whole_count();
        let cle = self.chunk.on_target_add(1);
        let (lap_ends, delta) = match self.lap_request {
            LapRequest::KeyStroke(_) => (ksle, Ghost(key_stroke_element_count.spec_whole_count())),
            LapRequest::IdealKeyStroke(_) => (iksle, Ghost(ideal_key_stroke_element_count.spec_whole_count())),
            LapRequest::Spell(_) => (sle, Ghost(spell_count as int)),
            LapRequest::Chunk(_) => (cle, Ghost(1int)),
        };
        match lap_ends {
            None => {
                proof {
                    assert(ends.len() == 0);
                    let conv = MultiTargetDeltaConverter::spec_of(
                        spell_count,
                        ideal_key_stroke_element_count,
                        key_stroke_element_count,
                        self.spec_request().spec_base(),
                    );
                    assert(self.key_stroke.spec_lap_end_positions() =~= old_ks.spec_lap_end_positions() + Seq::new(
                        ends.len(),
                        |i: int| lap_end_position(old_ks.spec_whole(), conv.spec_key_stroke_delta(ends[i])) as usize,
                    ));
                    assert(self.ideal_key_stroke.spec_lap_end_positions() =~= old_iks.spec_lap_end_positions() + Seq::new(
                        ends.len(),
                        |i: int| lap_end_position(old_iks.spec_whole(), conv.spec_ideal_key_stroke_delta(ends[i])) as usize,
                    ));
                    assert(self.spell.spec_lap_end_positions() =~= old_sp.spec_lap_end_positions() + Seq::new(
                        ends.len(),
                        |i: int| lap_end_position(old_sp.spec_whole(), conv.spec_spell_delta(ends[i])) as usize,
                    ));
                    assert(self.chunk.spec_lap_end_positions() =~= old_ch.spec_lap_end_positions() + Seq::new(
                        ends.len(),
                        |i: int| lap_end_position(old_ch.spec_whole(), 1) as usize,
                    ));
                    assert(added_by(self.key_stroke, old_ks, key_stroke_element_count.spec_whole_count(), ends, conv, 0));
                    assert(added_by(self.ideal_key_stroke, old_iks, ideal_key_stroke_element_count.spec_whole_count(), ends, conv, 1));
                    assert(added_by(self.spell, old_sp, spell_count as int, ends, conv, 2));
                    assert(added_by(self.chunk, old_ch, 1, ends, conv, 3));
                }
            },
            Some(deltas) => {
                proof {
                    lemma_lap_end_deltas_range(
                        self.spec_request().spec_targets_per_lap().spec_get() as int,
                        match self.spec_request().spec_base() {
                            BaseTarget::KeyStroke => ks_whole as int,
                            BaseTarget::IdealKeyStroke => iks_whole as int,
                            BaseTarget::Spell => s_whole as int,
                            BaseTarget::Chunk => c_whole as int,
                        },
                        delta@,
                    );
                    assert(deltas@.len() == ends.len());
                }
                let mdc = MultiTargetDeltaConverter::new(
                    spell_count,
                    ideal_key_stroke_element_count,
                    key_stroke_element_count,
                    self.lap_request.construct_base_target(),
                );
                let kd = mdc.key_stroke_delta(deltas.as_slice());
                self.key_stroke.add_lap_ends(kd.as_slice(), ks_whole);
                let ikd = mdc.ideal_key_stroke_delta(deltas.as_slice());
                self.ideal_key_stroke.add_lap_ends(ikd.as_slice(), iks_whole);
                let sd = mdc.spell_delta(deltas.as_slice());
                self.spell.add_lap_ends(sd.as_slice(), s_whole);
                let cd = mdc.chunk_delta(deltas.as_slice());
                self.chunk.add_lap_ends(cd.as_slice(), c_whole);
                proof {
                    let conv = MultiTargetDeltaConverter::spec_of(
                        spell_count,
                        ideal_key_stroke_element_count,
                        key_stroke_element_count,
                        self.spec_request().spec_base(),
                    );
                    let ol = old_ks.spec_lap_end_positions().len() as int;
                    assert forall|i: int| 0 <= i < ends.len() implies #[trigger] self.key_stroke.spec_lap_end_positions()[ol + i]
                        == lap_end_position(old_ks.spec_whole(), convert_delta(conv, 0, ends[i])) as usize by {
                        assert(kd@[i] == mdc.spec_key_stroke_delta(deltas@[i] as int));
                        assert(deltas@[i] == ends[i]);
                        assert(self.key_stroke.spec_lap_end_positions()[ol + i] == lap_end_position(ks_whole as int, kd@[i] as int) as usize);
                    }
                    let oil = old_iks.spec_lap_end_positions().len() as int;
                    assert forall|i: int| 0 <= i < ends.len() implies #[trigger] self.ideal_key_stroke.spec_lap_end_positions()[oil + i]
                        == lap_end_position(old_iks.spec_whole(), convert_delta(conv, 1, ends[i])) as usize by {
                        assert(ikd@[i] == mdc.spec_ideal_key_stroke_delta(deltas@[i] as int));
                        assert(deltas@[i] == ends[i]);
                        assert(self.ideal_key_stroke.spec_lap_end_positions()[oil + i] == lap_end_position(iks_whole as int, ikd@[i] as int) as usize);
                    }
                    let osl = old_sp.spec_lap_end_positions().len() as int;
                    assert forall|i: int| 0 <= i < ends.len() implies #[trigger] self.spell.spec_lap_end_positions()[osl + i]
                        == lap_end_position(old_sp.spec_whole(), convert_delta(conv, 2, ends[i])) as usize by {
                        assert(sd@[i] == mdc.spec_spell_delta(deltas@[i] as int));
                        assert(deltas@[i] == ends[i]);
                        assert(self.spell.spec_lap_end_positions()[osl + i] == lap_end_position(s_whole as int, sd@[i] as int) as usize);
                    }
                    let ocl = old_ch.spec_lap_end_positions().len() as int;
                    assert forall|i: int| 0 <= i < ends.len() implies #[trigger] self.chunk.spec_lap_end_positions()[ocl + i]
                        == lap_end_position(old_ch.spec_whole(), convert_delta(conv, 3, ends[i])) as usize by {
                        assert(cd@[i] == 1);
                        assert(self.chunk.spec_lap_end_positions()[ocl + i] == lap_end_position(c_whole as int, cd@[i] as int) as usize);
                    }
                }
            },
        }
        proof {
            let conv = MultiTargetDeltaConverter::spec_of(
                spell_count,
                ideal_key_stroke_element_count,
                key_stroke_element_count,
                self.spec_request().spec_base(),
            );
            assert(added_by(self.key_stroke, old_ks, key_stroke_element_count.spec_whole_count(), ends, conv, 0));
            assert(added_by(self.ideal_key_stroke, old_iks, ideal_key_stroke_element_count.spec_whole_count(), ends, conv, 1));
            assert(added_by(self.spell, old_sp, spell_count as int, ends, conv, 2));
            assert(added_by(self.chunk, old_ch, 1, ends, conv, 3));
        }
    }

    /// Sets the key stroke counts of the candidate typed and of the ideal candidate of the
    /// chunk which starts.
    pub fn on_start_chunk(&mut self, candidate_key_stroke_count: usize, ideal_candidate_key_stroke_count: usize)
        requires
            old(self).wf(),
            candidate_key_stroke_count > 0,
            ideal_candidate_key_stroke_count > 0,
        ensures
            final(self).wf(),
            final(self).spec_this_count() == Some(candidate_key_stroke_count),
            final(self).spec_this_ideal_count() == Some(ideal_candidate_key_stroke_count),
            final(self).spec_key_stroke() == old(self).spec_key_stroke(),
            final(self).spec_ideal_key_stroke() == old(self).spec_ideal_key_stroke(),
            final(self).spec_spell() == old(self).spec_spell(),
            final(self).spec_chunk() == old(self).spec_chunk(),
            final(self).spec_request() == old(self).spec_request(),
            final(self).spec_in_candidate() == old(self).spec_in_candidate(),
            final(self).spec_last_time() == old(self).spec_last_time(),
    {
        self.this_candidate_key_stroke_count = Some(candidate_key_stroke_count);
        self.this_ideal_candidate_key_stroke_count = Some(ideal_candidate_key_stroke_count);
    }

    /// The index in the ideal candidate that the key stroke index `i` stands for.
    fn calc_ideal_key_stroke_index(&self, i: usize) -> (r: u128)
        requires
            self.wf(),
            self.spec_this_count() is Some,
            self.spec_this_ideal_count() is Some,
        ensures
            r == spec_ideal_index(i as int, self.spec_this_ideal_count()->0 as int, self.spec_this_count()->0 as int),
    {
        let ideal = self.this_ideal_candidate_key_stroke_count.unwrap() as u128;
        let actual = self.this_candidate_key_stroke_count.unwrap() as u128;
        let ii = i as u128;
        assert((ii + 1) * ideal + (actual - 1) <= u128::MAX && (ii + 1) * ideal >= 1) by (nonlinear_arith)
            requires
                ii <= usize::MAX,
                1 <= ideal <= usize::MAX,
                1 <= actual <= usize::MAX,
                usize::MAX <= u64::MAX;
        let m = (ii + 1) * ideal;
        let n = m + (actual - 1);
        let q = n / actual;
        assert(q >= 1) by (nonlinear_arith)
            requires
                n >= actual,
                actual >= 1,
                q == n / actual;
        q - 1
    }

    /// Takes a key stroke into account at `elapsed_time`. A correct one finishes a key stroke
    /// and, when the index in the ideal candidate it stands for moves, an ideal key stroke.
    pub fn on_actual_key_stroke(&mut self, is_correct: bool, elapsed_time: Duration)
        requires
            old(self).wf(),
            old(self).spec_this_count() is Some,
            old(self).spec_this_ideal_count() is Some,
        ensures
            final(self).wf(),
            final(self).spec_last_time() == Some(elapsed_time),
            final(self).spec_request() == old(self).spec_request(),
            final(self).spec_this_count() == old(self).spec_this_count(),
            final(self).spec_this_ideal_count() == old(self).spec_this_ideal_count(),
            final(self).spec_spell() == old(self).spec_spell(),
            final(self).spec_chunk() == old(self).spec_chunk(),
            !is_correct ==> final(self).spec_in_candidate() == old(self).spec_in_candidate()
                && final(self).spec_key_stroke() == old(self).spec_key_stroke()
                && final(self).spec_ideal_key_stroke() == old(self).spec_ideal_key_stroke(),
            is_correct ==> {
                let n = sat_add(old(self).spec_in_candidate(), 1);
                let ideal = old(self).spec_this_ideal_count()->0 as int;
                let actual = old(self).spec_this_count()->0 as int;
                &&& final(self).spec_in_candidate() == n
                &&& finished_by(final(self).spec_key_stroke(), old(self).spec_key_stroke(), 1, elapsed_time)
                &&& if spec_ideal_index(n - 1, ideal, actual) != spec_ideal_index(n, ideal, actual) {
                    finished_by(final(self).spec_ideal_key_stroke(), old(self).spec_ideal_key_stroke(), 1, elapsed_time)
                } else {
                    final(self).spec_ideal_key_stroke() == old(self).spec_ideal_key_stroke()
                }
            },
    {
        if is_correct {
            self.in_candidate_key_stroke_count = self.in_candidate_key_stroke_count.saturating_add(1);
            self.key_stroke.on_finished(1, elapsed_time);
            let n = self.in_candidate_key_stroke_count;
            let a = self.calc_ideal_key_stroke_index(n - 1);
            let b = self.calc_ideal_key_stroke_index(n);
            if a != b {
                self.ideal_key_stroke.on_finished(1, elapsed_time);
            }
        }
        self.last_key_stroke_elapsed_time = Some(elapsed_time);
    }

    /// Takes `spell_count` finished spells into account, at the time of the last key stroke.
    pub fn on_finish_spell(&mut self, spell_count: usize)
        requires
            old(self).wf(),
            old(self).spec_last_time() is Some,
        ensures
            final(self).wf(),
            finished_by(final(self).spec_spell(), old(self).spec_spell(), spell_count as int, old(self).spec_last_time()->0),
            final(self).spec_key_stroke() == old(self).spec_key_stroke(),
            final(self).spec_ideal_key_stroke() == old(self).spec_ideal_key_stroke(),
            final(self).spec_chunk() == old(self).spec_chunk(),
            final(self).spec_request() == old(self).spec_request(),
            final(self).spec_this_count() == old(self).spec_this_count(),
            final(self).spec_this_ideal_count() == old(self).spec_this_ideal_count(),
            final(self).spec_in_candidate() == old(self).spec_in_candidate(),
            final(self).spec_last_time() == old(self).spec_last_time(),
    {
        let t = self.last_key_stroke_elapsed_time.unwrap();
        self.spell.on_finished(spell_count, t);
    }

    /// Takes a finished chunk into account, at the time of the last key stroke.
    pub fn on_finish_chunk(&mut self)
        requires
            old(self).wf(),
            old(self).spec_last_time() is Some,
        ensures
            final(self).wf(),
            finished_by(final(self).spec_chunk(), old(self).spec_chunk(), 1, old(self).spec_last_time()->0),
            final(self).spec_key_stroke() == old(self).spec_key_stroke(),
            final(self).spec_ideal_key_stroke() == old(self).spec_ideal_key_stroke(),
            final(self).spec_spell() == old(self).spec_spell(),
            final(self).spec_request() == old(self).spec_request(),
            final(self).spec_this_count() == old(self).spec_this_count(),
            final(self).spec_this_ideal_count() == old(self).spec_this_ideal_count(),
            final(self).spec_in_candidate() == 0,
            final(self).spec_last_time() == old(self).spec_last_time(),
    {
        let t = self.last_key_stroke_elapsed_time.unwrap();
        self.chunk.on_finished(1, t);
        self.in_candidate_key_stroke_count = 0;
    }

    /// Splits into the statistics of key strokes, ideal key strokes, spells and chunks.
    pub fn emit(self) -> (r: (
        PrimitiveLapStatisticsBuilder,
        PrimitiveLapStatisticsBuilder,
        PrimitiveLapStatisticsBuilder,
        PrimitiveLapStatisticsBuilder,
    ))
        ensures
            r.0 == self.spec_key_stroke(),
            r.1 == self.spec_ideal_key_stroke(),
            r.2 == self.spec_spell(),
            r.3 == self.spec_chunk(),
    {
        (self.key_stroke, self.ideal_key_stroke, self.spell, self.chunk)
    }

    /// Returns the lap information: a lap for every lap end, ended (with its time) as far as
    /// laps of the kind they are taken by have ended. The view position of the `i`-th lap end
    /// is the `i`-th of the view positions which the spell lap end positions stand for (0
    /// when there is none).
    pub fn construct_lap_info(&self, view_position_of_spell: &[ViewPosition]) -> (r: LapInfo)
        requires
            self.wf(),
        ensures
            is_lap_info_of(r, *self, view_position_of_spell@),
    {
        let times = match self.lap_request {
            LapRequest::KeyStroke(_) => self.key_stroke.lap_end_time().unwrap(),
            LapRequest::IdealKeyStroke(_) => self.ideal_key_stroke.lap_end_time().unwrap(),
            LapRequest::Spell(_) => self.spell.lap_end_time().unwrap(),
            LapRequest::Chunk(_) => self.chunk.lap_end_time().unwrap(),
        };
        let ks = self.key_stroke.lap_end_positions();
        let iks = self.ideal_key_stroke.lap_end_positions();
        let sp = self.spell.lap_end_positions();
        let ch = self.chunk.lap_end_positions();
        let has_view = view_position_of_spell.len() > 0;
        let view: Vec<usize> = if has_view {
            convert_spell_positions_to_view_positions(sp.as_slice(), view_position_of_spell)
        } else {
            Vec::new()
        };
        let n = ks.len();
        let f = if times.len() <= n {
            times.len()
        } else {
            n
        };
        let mut finished: Vec<SingleFinishedLapInfo> = Vec::new();
        let mut unfinished: Vec<SingleUnfinishedLapInfo> = Vec::new();
        let mut i: usize = 0;
        while i < n
            invariant
                i <= n,
                n == ks@.len() == iks@.len() == sp@.len() == ch@.len(),
                f <= n,
                f <= times@.len(),
                has_view ==> view@ == crate::vocabulary::view_positions_for(sp@, view_position_of_spell@),
                !has_view ==> view@.len() == 0,
                has_view == (view_position_of_spell@.len() > 0),
                finished@.len() == if i <= f { i as int } else { f as int },
                unfinished@.len() == if i <= f { 0 } else { i - f },
                forall|k: int| 0 <= k < finished@.len() ==> (#[trigger] finished@[k]).spec_elapsed_time() == times@[k],
                forall|k: int|
                    0 <= k < finished@.len() ==> (#[trigger] finished@[k]).spec_positions() == (
                        ks@[k],
                        iks@[k],
                        sp@[k],
                        ch@[k],
                        view_at(view@, has_view, k),
                    ),
                forall|k: int|
                    0 <= k < unfinished@.len() ==> (#[trigger] unfinished@[k]).spec_positions() == (
                        ks@[f + k],
                        iks@[f + k],
                        sp@[f + k],
                        ch@[f + k],
                        view_at(view@, has_view, f + k),
                    ),
            decreases n - i,
        {
            let v = if i < view.len() {
                view[i]
            } else {
                0
            };
            if i < f {
                finished.push(SingleFinishedLapInfo::new(times[i], ks[i], iks[i], sp[i], ch[i], v));
            } else {
                unfinished.push(SingleUnfinishedLapInfo::new(ks[i], iks[i], sp[i], ch[i], v));
            }
            i = i + 1;
        }
        let r = LapInfo::new(finished, unfinished);
        proof {
            assert forall|w: int| 0 <= w <= 4 implies #[trigger] r.spec_lap_end_positions(w).len() == n by {}
            assert(r.spec_lap_end_positions(0) =~= ks@);
            assert(r.spec_lap_end_positions(1) =~= iks@);
            assert(r.spec_lap_end_positions(2) =~= sp@);
            assert(r.spec_lap_end_positions(3) =~= ch@);
        }
        r
    }
}

impl LapStatiticsBuilder {
    /// The key stroke counts of a chunk being typed are set.
    pub open spec fn spec_chunk_started(self) -> bool {
        self.spec_this_count() is Some && self.spec_this_ideal_count() is Some
    }

    /// Whether the key stroke counts of a chunk being typed are set.
    pub fn has_chunk_started(&self) -> (r: bool)
        ensures
            r == (self.spec_this_count() is Some && self.spec_this_ideal_count() is Some),
            r == self.spec_chunk_started(),
    {
        self.this_candidate_key_stroke_count.is_some() && self.this_ideal_candidate_key_stroke_count.is_some()
    }

    /// Whether a key stroke was taken into account.
    pub fn has_key_stroke_time(&self) -> (r: bool)
        ensures
            r == self.spec_last_time() is Some,
    {
        self.last_key_stroke_elapsed_time.is_some()
    }

    /// Takes a chunk into account when its counts are those of a chunk (they fit its spell
    /// count and every element has a key stroke); otherwise changes nothing.
    pub fn add_chunk_if_valid(
        &mut self,
        key_stroke_element_count: KeyStrokeElementCount,
        ideal_key_stroke_element_count: KeyStrokeElementCount,
        spell_count: usize,
    )
        requires
            old(self).wf(),
        ensures
            final(self).wf(),
            final(self).spec_request() == old(self).spec_request(),
            valid_chunk_counts(key_stroke_element_count, ideal_key_stroke_element_count, spell_count as int) ==> chunk_added(
                *final(self),
                *old(self),
                key_stroke_element_count,
                ideal_key_stroke_element_count,
                spell_count as int,
            ),
            !valid_chunk_counts(key_stroke_element_count, ideal_key_stroke_element_count, spell_count as int) ==> *final(self)
                == *old(self),
    {
        if super::multi_target_position_convert::counts_fit_spell(&key_stroke_element_count, spell_count)
            && super::multi_target_position_convert::counts_fit_spell(&ideal_key_stroke_element_count, spell_count)
            && super::multi_target_position_convert::has_positive_counts(&key_stroke_element_count)
            && super::multi_target_position_convert::has_positive_counts(&ideal_key_stroke_element_count) {
            self.on_add_chunk(key_stroke_element_count, ideal_key_stroke_element_count, spell_count);
        }
    }
}

/// Counts which are those of a chunk of `spell_count` spells: they fit its spell count and
/// every element has a key stroke.
pub open spec fn valid_chunk_counts(
    key_stroke_element_count: KeyStrokeElementCount,
    ideal_key_stroke_element_count: KeyStrokeElementCount,
    spell_count: int,
) -> bool {
    &&& key_stroke_element_count.fits_spell(spell_count)
    &&& ideal_key_stroke_element_count.fits_spell(spell_count)
    &&& positive_counts(key_stroke_element_count)
    &&& positive_counts(ideal_key_stroke_element_count)
}

/// `new` is `old` after a chunk of these counts was taken into account: every kind has the
/// chunk's targets more, with the laps ending in it located among them, and the state of the
/// chunk being typed is kept.
pub open spec fn chunk_added(
    new: LapStatiticsBuilder,
    old: LapStatiticsBuilder,
    key_stroke_element_count: KeyStrokeElementCount,
    ideal_key_stroke_element_count: KeyStrokeElementCount,
    spell_count: int,
) -> bool {
    let ends = old.spec_chunk_ends(key_stroke_element_count, ideal_key_stroke_element_count, spell_count);
    let conv = MultiTargetDeltaConverter::spec_of(
        spell_count as usize,
        ideal_key_stroke_element_count,
        key_stroke_element_count,
        old.spec_request().spec_base(),
    );
    &&& new.wf()
    &&& new.spec_request() == old.spec_request()
    &&& new.spec_this_count() == old.spec_this_count()
    &&& new.spec_this_ideal_count() == old.spec_this_ideal_count()
    &&& new.spec_in_candidate() == old.spec_in_candidate()
    &&& new.spec_last_time() == old.spec_last_time()
    &&& added_by(new.spec_key_stroke(), old.spec_key_stroke(), key_stroke_element_count.spec_whole_count(), ends, conv, 0)
    &&& added_by(new.spec_ideal_key_stroke(), old.spec_ideal_key_stroke(), ideal_key_stroke_element_count.spec_whole_count(), ends, conv, 1)
    &&& added_by(new.spec_spell(), old.spec_spell(), spell_count, ends, conv, 2)
    &&& added_by(new.spec_chunk(), old.spec_chunk(), 1, ends, conv, 3)
}

/// The `i`-th view position, 0 when there is none.
pub open spec fn view_at(view: Seq<usize>, has_view: bool, i: int) -> usize {
    if has_view && 0 <= i < view.len() {
        view[i]
    } else {
        0
    }
}

/// The lap end deltas lie between 1 and `delta`.
proof fn lemma_lap_end_deltas_range(t: int, whole: int, delta: int)
    requires
        t >= 1,
        whole >= 0,
    ensures
        forall|i: int|
            0 <= i < lap_end_deltas(t, whole, delta).len() ==> 1 <= #[trigger] lap_end_deltas(t, whole, delta)[i] <= delta,
{
    let first = t - whole % t;
    assert(1 <= first <= t) by {
        vstd::arithmetic::div_mod::lemma_mod_bound(whole, t);
    }
    if first <= delta {
        let len = (delta - first) / t + 1;
        assert forall|i: int| 0 <= i < lap_end_deltas(t, whole, delta).len() implies 1 <= #[trigger] lap_end_deltas(t, whole, delta)[i] <= delta by {
            assert(lap_end_deltas(t, whole, delta)[i] == first + i * t);
            assert(1 <= first + i * t <= delta) by (nonlinear_arith)
                requires
                    0 <= i < len,
                    len == (delta - first) / t + 1,
                    t >= 1,
                    first >= 1,
                    first <= delta;
        }
    }
}

/// Lap times add up: when the laps ended in time order, the durations of the first `k` laps
/// add up to the time at which the `k`-th lap ended.
pub proof fn lemma_lap_times_add_up(info: LapInfo, k: int)
    requires
        1 <= k <= info.spec_finished().len(),
        forall|i: int|
            0 < i < info.spec_finished().len() ==> info.spec_finished()[i - 1].spec_elapsed_time().spec_nanos()
                <= (#[trigger] info.spec_finished()[i]).spec_elapsed_time().spec_nanos(),
    ensures
        info.spec_lap_times_sum(k) == info.spec_finished()[k - 1].spec_elapsed_time().spec_nanos(),
    decreases k,
{
    info.spec_finished()[k - 1].spec_elapsed_time().lemma_nanos_nonneg();
    assert(info.spec_lap_times_sum(k) == info.spec_lap_times_sum(k - 1) + info.spec_lap_time_nanos(k - 1));
    if k == 1 {
        assert(info.spec_lap_times_sum(0) == 0);
    } else {
        lemma_lap_times_add_up(info, k - 1);
        assert(info.spec_finished()[k - 2].spec_elapsed_time().spec_nanos() <= info.spec_finished()[k - 1].spec_elapsed_time().spec_nanos());
    }
}

/// Laps end every `t` targets: of `delta` targets added after the first `whole` ones, a lap
/// ends at the `d`-th exactly when the `whole + d` targets so far are a multiple of `t`, and
/// the lap ends come in increasing order.
pub proof fn lemma_laps_end_every_t_targets(t: int, whole: int, delta: int, d: int)
    requires
        t >= 1,
        whole >= 0,
        1 <= d <= delta,
    ensures
        lap_end_deltas(t, whole, delta).contains(d) <==> (whole + d) % t == 0,
        forall|i: int, j: int|
            0 <= i < j < lap_end_deltas(t, whole, delta).len() ==> lap_end_deltas(t, whole, delta)[i]
                < lap_end_deltas(t, whole, delta)[j],
{
    let ends = lap_end_deltas(t, whole, delta);
    let q = whole / t;
    let r = whole % t;
    vstd::arithmetic::div_mod::lemma_fundamental_div_mod(whole, t);
    vstd::arithmetic::div_mod::lemma_mod_bound(whole, t);
    assert(whole == t * q + r);
    let first = t - r;
    assert forall|i: int, j: int| 0 <= i < j < ends.len() implies ends[i] < ends[j] by {
        assert(i * t < j * t) by (nonlinear_arith)
            requires
                i < j,
                t >= 1;
    }
    if ends.contains(d) {
        let i = choose|i: int| 0 <= i < ends.len() && ends[i] == d;
        assert(d == first + i * t);
        assert(whole + d == (q + 1 + i) * t) by (nonlinear_arith)
            requires
                whole == t * q + r,
                d == first + i * t,
                first == t - r;
        vstd::arithmetic::div_mod::lemma_mod_multiples_basic(q + 1 + i, t);
    }
    if (whole + d) % t == 0 {
        let m = (whole + d) / t;
        vstd::arithmetic::div_mod::lemma_fundamental_div_mod(whole + d, t);
        assert(whole + d == t * m);
        let i = m - q - 1;
        assert(d - first == i * t) by (nonlinear_arith)
            requires
                whole + d == t * m,
                whole == t * q + r,
                first == t - r,
                i == m - q - 1;
        assert(i >= 0) by (nonlinear_arith)
            requires
                d - first == i * t,
                d >= 1,
                first <= t,
                t >= 1;
        assert(first <= d);
        let len = (delta - first) / t + 1;
        assert(i <= (delta - first) / t) by (nonlinear_arith)
            requires
                i * t == d - first,
                d <= delta,
                t >= 1,
                i >= 0;
        assert(ends.len() == len);
        assert(ends[i] == first + i * t);
        assert(ends[i] == d);
    }
}

} // verus!
