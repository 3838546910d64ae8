//! Statistics of typing.
use vstd::prelude::*;

use crate::primitives::{Duration, NonZeroUsize};
use lap_statistics::PrimitiveLapStatisticsBuilder;
use statistics_counter::PrimitiveStatisticsCounter;
use multi_target_position_convert::BaseTarget;

pub mod multi_target_position_convert;
pub mod statistics_counter;
pub mod statistical_event;
pub mod manager;
pub mod display_string;
pub mod lap_statistics;
pub mod skill_statistics;
pub mod result;

verus! {

/// The kind of target laps are taken by, and how many targets of it make a lap.
#[derive(Debug, Clone, Copy, PartialEq, Eq, Hash)]
pub enum LapRequest {
    KeyStroke(NonZeroUsize),
    IdealKeyStroke(NonZeroUsize),
    Spell(NonZeroUsize),
    Chunk(NonZeroUsize),
}

impl LapRequest {
    /// The kind of target laps are taken by.
    pub open spec fn spec_base(self) -> BaseTarget {
        match self {
            LapRequest::KeyStroke(_) => BaseTarget::KeyStroke,
            LapRequest::IdealKeyStroke(_) => BaseTarget::IdealKeyStroke,
            LapRequest::Spell(_) => BaseTarget::Spell,
            LapRequest::Chunk(_) => BaseTarget::Chunk,
        }
    }

    /// The number of targets of a lap.
    pub open spec fn spec_targets_per_lap(self) -> NonZeroUsize {
        match self {
            LapRequest::KeyStroke(n) => n,
            LapRequest::IdealKeyStroke(n) => n,
            LapRequest::Spell(n) => n,
            LapRequest::Chunk(n) => n,
        }
    }

    /// Returns the kind of target laps are taken by.
    pub fn construct_base_target(&self) -> (r: BaseTarget)
        ensures
            r == self.spec_base(),
    {
        match self {
            LapRequest::KeyStroke(_) => BaseTarget::KeyStroke,
            LapRequest::IdealKeyStroke(_) => BaseTarget::IdealKeyStroke,
            LapRequest::Spell(_) => BaseTarget::Spell,
            LapRequest::Chunk(_) => BaseTarget::Chunk,
        }
    }

    /// Returns the number of targets of a lap.
    pub fn targets_per_lap(&self) -> (r: NonZeroUsize)
        ensures
            r == self.spec_targets_per_lap(),
    {
        match self {
            LapRequest::KeyStroke(n) => *n,
            LapRequest::IdealKeyStroke(n) => *n,
            LapRequest::Spell(n) => *n,
            LapRequest::Chunk(n) => *n,
        }
    }
}

/// The statistics of one kind of target during typing: counts, and laps when laps are taken by
/// this kind.
#[derive(Debug, Clone, PartialEq, Eq, Hash)]
pub struct OnTypingStatisticsTarget {
    finished_count: usize,
    whole_count: usize,
    completely_correct_count: usize,
    wrong_count: usize,
    targets_per_lap: Option<NonZeroUsize>,
    lap_end_time: Option<Vec<Duration>>,
    lap_end_position: Vec<usize>,
}

impl OnTypingStatisticsTarget {
    pub closed spec fn spec_counts(self) -> (usize, usize, usize, usize) {
        (self.finished_count, self.whole_count, self.completely_correct_count, self.wrong_count)
    }

    pub closed spec fn spec_targets_per_lap(self) -> Option<NonZeroUsize> {
        self.targets_per_lap
    }

    pub closed spec fn spec_lap_end_time(self) -> Option<Seq<Duration>> {
        match self.lap_end_time {
            Some(v) => Some(v@),
            None => None,
        }
    }

    pub closed spec fn spec_lap_end_positions(self) -> Seq<usize> {
        self.lap_end_position@
    }

    /// The statistics of these counts and laps; laps are taken by this kind exactly when lap
    /// end times are given.
    pub fn new(
        finished_count: usize,
        whole_count: usize,
        completely_correct_count: usize,
        wrong_count: usize,
        targets_per_lap: Option<NonZeroUsize>,
        lap_end_time: Option<Vec<Duration>>,
        lap_end_position: Vec<usize>,
    ) -> (r: Self)
        requires
            targets_per_lap is Some <==> lap_end_time is Some,
        ensures
            r.spec_counts() == (finished_count, whole_count, completely_correct_count, wrong_count),
            r.spec_targets_per_lap() == targets_per_lap,
            r.spec_lap_end_time() == (match lap_end_time {
                Some(v) => Some(v@),
                None => None::<Seq<Duration>>,
            }),
            r.spec_lap_end_positions() == lap_end_position@,
    {
        OnTypingStatisticsTarget {
            finished_count,
            whole_count,
            completely_correct_count,
            wrong_count,
            targets_per_lap,
            lap_end_time,
            lap_end_position,
        }
    }

    /// Returns the number of finished targets.
    pub fn finished_count(&self) -> (r: usize)
        ensures
            r == self.spec_counts().0,
    {
        self.finished_count
    }

    /// Returns the number of targets.
    pub fn whole_count(&self) -> (r: usize)
        ensures
            r == self.spec_counts().1,
    {
        self.whole_count
    }

    /// Returns the number of targets finished without a miss.
    pub fn completely_correct_count(&self) -> (r: usize)
        ensures
            r == self.spec_counts().2,
    {
        self.completely_correct_count
    }

    /// Returns the number of misses; several misses on one target count separately.
    pub fn wrong_count(&self) -> (r: usize)
        ensures
            r == self.spec_counts().3,
    {
        self.wrong_count
    }

    /// Returns the number of targets a lap is made of, when laps are taken by this kind.
    pub fn targets_per_lap(&self) -> (r: Option<NonZeroUsize>)
        ensures
            r == self.spec_targets_per_lap(),
    {
        self.targets_per_lap
    }

    /// Returns the times at which laps ended, when laps are taken by this kind.
    pub fn lap_end_time(&self) -> (r: Option<&Vec<Duration>>)
        ensures
            match r {
                Some(v) => self.spec_lap_end_time() == Some(v@),
                None => self.spec_lap_end_time() is None,
            },
    {
        match &self.lap_end_time {
            Some(v) => Some(v),
            None => None,
        }
    }

    /// Returns the positions of the lap ends among targets of this kind.
    pub fn lap_end_positions(&self) -> (r: &Vec<usize>)
        ensures
            r@ == self.spec_lap_end_positions(),
    {
        &self.lap_end_position
    }
}

/// The statistics during typing of one kind of target, from its counter and its lap
/// statistics.
pub fn construct_on_typing_statistics_target(
    psc: &PrimitiveStatisticsCounter,
    plb: &PrimitiveLapStatisticsBuilder,
) -> (r: OnTypingStatisticsTarget)
    requires
        plb.wf(),
    ensures
        r.spec_counts() == (
            psc.spec_finished() as usize,
            psc.spec_whole() as usize,
            psc.spec_completely_correct() as usize,
            psc.spec_wrong() as usize,
        ),
        r.spec_targets_per_lap() == plb.spec_targets_per_lap(),
        r.spec_lap_end_time() == plb.spec_lap_end_time(),
        r.spec_lap_end_positions() == plb.spec_lap_end_positions(),
{
    let times: Option<Vec<Duration>> = match plb.lap_end_time() {
        Some(v) => Some(v.clone()),
        None => None,
    };
    proof {
        if times is Some {
            assert(times->0@ =~= plb.spec_lap_end_time()->0);
        }
    }
    OnTypingStatisticsTarget::new(
        psc.finished_count(),
        psc.whole_count(),
        psc.completely_correct_count(),
        psc.wrong_count(),
        plb.targets_per_lap(),
        times,
        plb.lap_end_positions().clone(),
    )
}

} // verus!
