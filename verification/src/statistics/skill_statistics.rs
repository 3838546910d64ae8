//! Skill statistics: for every key, how often it was typed, how long it took, how often it was
//! typed without a miss before it, and which keys were typed by mistake in its place.
use vstd::prelude::*;

use super::statistical_event::StatisticalEvent;
use super::statistics_counter::sat_add;
use crate::key_stroke::KeyStrokeChar;
use crate::primitives::Duration;

verus! {

/// The order of keys: by their characters.
pub open spec fn char_key(k: KeyStrokeChar) -> int {
    k.spec_char() as int
}

/// Whether keyed entries are in strictly increasing order of their keys.
pub open spec fn counts_sorted(s: Seq<(KeyStrokeChar, usize)>) -> bool {
    forall|i: int, j: int| #![trigger s[i], s[j]] 0 <= i < j < s.len() ==> char_key(s[i].0) < char_key(s[j].0)
}

/// The count `n` of the key `k` put into counts sorted by key: it replaces (or, when `add`,
/// is added to, saturating) the count of an entry of the same key, or it is inserted before
/// the first entry of a larger key.
pub open spec fn upsert_count(s: Seq<(KeyStrokeChar, usize)>, k: KeyStrokeChar, n: usize, add: bool) -> Seq<(KeyStrokeChar, usize)>
    decreases s.len(),
{
    if s.len() == 0 {
        seq![(k, n)]
    } else if char_key(s[0].0) == char_key(k) {
        seq![(s[0].0, merged_count(s[0].1, n, add))] + s.drop_first()
    } else if char_key(s[0].0) > char_key(k) {
        seq![(k, n)] + s
    } else {
        seq![s[0]] + upsert_count(s.drop_first(), k, n, add)
    }
}

/// The count of a key put again: added to the old one (saturating) or replacing it.
pub open spec fn merged_count(old: usize, n: usize, add: bool) -> usize {
    if add {
        sat_add(old as int, n as int) as usize
    } else {
        n
    }
}

/// The counts `es` put one after the other into `s`.
pub open spec fn fold_counts(s: Seq<(KeyStrokeChar, usize)>, es: Seq<(KeyStrokeChar, usize)>, add: bool) -> Seq<(KeyStrokeChar, usize)>
    decreases es.len(),
{
    if es.len() == 0 {
        s
    } else {
        upsert_count(fold_counts(s, es.drop_last(), add), es.last().0, es.last().1, add)
    }
}

/// Putting a count at the place found by a scan: the entries before it have smaller keys.
proof fn lemma_upsert_count_at(s: Seq<(KeyStrokeChar, usize)>, k: KeyStrokeChar, n: usize, add: bool, i: int)
    requires
        0 <= i <= s.len(),
        forall|j: int| 0 <= j < i ==> char_key(#[trigger] s[j].0) < char_key(k),
        i < s.len() ==> char_key(s[i].0) >= char_key(k),
    ensures
        upsert_count(s, k, n, add) == s.take(i) + (if i < s.len() && char_key(s[i].0) == char_key(k) {
            seq![(s[i].0, merged_count(s[i].1, n, add))] + s.skip(i + 1)
        } else {
            seq![(k, n)] + s.skip(i)
        }),
    decreases i,
{
    if i == 0 {
        assert(s.take(0) + s =~= s);
        if s.len() > 0 {
            assert(s.skip(1) =~= s.drop_first());
            assert(s.take(0) + (seq![(s[0].0, merged_count(s[0].1, n, add))] + s.skip(1)) =~= seq![(s[0].0, merged_count(s[0].1, n, add))] + s.drop_first());
        }
        assert(s.skip(0) =~= s);
        assert(s.take(0) + (seq![(k, n)] + s.skip(0)) =~= seq![(k, n)] + s);
    } else {
        let t = s.drop_first();
        assert forall|j: int| 0 <= j < i - 1 implies char_key(#[trigger] t[j].0) < char_key(k) by {
            assert(t[j] == s[j + 1]);
        }
        lemma_upsert_count_at(t, k, n, add, i - 1);
        assert(s[0] == s[0]);
        assert(char_key(s[0].0) < char_key(k));
        if i < s.len() && char_key(s[i].0) == char_key(k) {
            assert(t[i - 1] == s[i]);
            assert(t.skip(i) =~= s.skip(i + 1));
            assert(upsert_count(s, k, n, add) =~= s.take(i) + (seq![(s[i].0, merged_count(s[i].1, n, add))] + s.skip(i + 1)));
        } else {
            if i < s.len() {
                assert(t[i - 1] == s[i]);
            }
            assert(t.skip(i - 1) =~= s.skip(i));
            assert(upsert_count(s, k, n, add) =~= s.take(i) + (seq![(k, n)] + s.skip(i)));
        }
    }
}

/// Putting a count keeps counts sorted.
proof fn lemma_upsert_count_sorted(s: Seq<(KeyStrokeChar, usize)>, k: KeyStrokeChar, n: usize, add: bool)
    requires
        counts_sorted(s),
    ensures
        counts_sorted(upsert_count(s, k, n, add)),
        forall|i: int| 0 <= i < upsert_count(s, k, n, add).len() ==> {
            ||| char_key(#[trigger] upsert_count(s, k, n, add)[i].0) == char_key(k)
            ||| exists|j: int| 0 <= j < s.len() && s[j].0 == upsert_count(s, k, n, add)[i].0
        },
    decreases s.len(),
{
    let u = upsert_count(s, k, n, add);
    if s.len() == 0 {
    } else if char_key(s[0].0) == char_key(k) {
        assert forall|i: int| 0 <= i < u.len() implies {
            ||| char_key(#[trigger] u[i].0) == char_key(k)
            ||| exists|j: int| 0 <= j < s.len() && s[j].0 == u[i].0
        } by {
            if i > 0 {
                assert(u[i] == s[i]);
            }
        }
    } else if char_key(s[0].0) > char_key(k) {
        assert forall|i: int| 0 <= i < u.len() implies {
            ||| char_key(#[trigger] u[i].0) == char_key(k)
            ||| exists|j: int| 0 <= j < s.len() && s[j].0 == u[i].0
        } by {
            if i > 0 {
                assert(u[i] == s[i - 1]);
            }
        }
    } else {
        let t = s.drop_first();
        assert forall|i: int, j: int| 0 <= i < j < t.len() implies char_key(#[trigger] t[i].0) < char_key(#[trigger] t[j].0) by {
            assert(t[i] == s[i + 1] && t[j] == s[j + 1]);
        }
        lemma_upsert_count_sorted(t, k, n, add);
        let ut = upsert_count(t, k, n, add);
        assert(u == seq![s[0]] + ut);
        assert forall|i: int| 0 <= i < u.len() implies {
            ||| char_key(#[trigger] u[i].0) == char_key(k)
            ||| exists|j: int| 0 <= j < s.len() && s[j].0 == u[i].0
        } by {
            if i == 0 {
                assert(s[0].0 == u[0].0);
            } else {
                assert(u[i] == ut[i - 1]);
                if char_key(ut[i - 1].0) != char_key(k) {
                    let j = choose|j: int| 0 <= j < t.len() && t[j].0 == ut[i - 1].0;
                    assert(s[j + 1] == t[j]);
                }
            }
        }
        assert forall|i: int, j: int| 0 <= i < j < u.len() implies char_key(#[trigger] u[i].0) < char_key(#[trigger] u[j].0) by {
            if i == 0 {
                assert(u[j] == ut[j - 1]);
                if char_key(ut[j - 1].0) != char_key(k) {
                    let m = choose|m: int| 0 <= m < t.len() && t[m].0 == ut[j - 1].0;
                    assert(t[m] == s[m + 1]);
                }
            } else {
                assert(u[i] == ut[i - 1] && u[j] == ut[j - 1]);
            }
        }
    }
}

/// Putting counts one after the other keeps counts sorted.
proof fn lemma_fold_counts_sorted(s: Seq<(KeyStrokeChar, usize)>, es: Seq<(KeyStrokeChar, usize)>, add: bool)
    requires
        counts_sorted(s),
    ensures
        counts_sorted(fold_counts(s, es, add)),
    decreases es.len(),
{
    if es.len() > 0 {
        lemma_fold_counts_sorted(s, es.drop_last(), add);
        lemma_upsert_count_sorted(fold_counts(s, es.drop_last(), add), es.last().0, es.last().1, add);
    }
}

/// Puts the count `n` of the key `k` into `map`.
fn put_count(map: &mut Vec<(KeyStrokeChar, usize)>, k: KeyStrokeChar, n: usize, add: bool)
    ensures
        final(map)@ == upsert_count(old(map)@, k, n, add),
{
    let kc = k.to_char();
    let mut i: usize = 0;
    while i < map.len() && map[i].0.to_char() < kc
        invariant
            i <= map@.len(),
            map@ == old(map)@,
            kc == k.spec_char(),
            forall|j: int| 0 <= j < i ==> char_key(#[trigger] map@[j].0) < char_key(k),
        decreases map@.len() - i,
    {
        i = i + 1;
    }
    let ghost s = map@;
    proof {
        lemma_upsert_count_at(s, k, n, add, i as int);
    }
    if i < map.len() && map[i].0.to_char() == kc {
        let key = map[i].0;
        let old_n = map[i].1;
        let v = if add {
            old_n.saturating_add(n)
        } else {
            n
        };
        map.set(i, (key, v));
        assert(map@ =~= s.take(i as int) + (seq![(s[i as int].0, merged_count(s[i as int].1, n, add))] + s.skip(i + 1)));
    } else {
        map.insert(i, (k, n));
        assert(map@ =~= s.take(i as int) + (seq![(k, n)] + s.skip(i as int)));
    }
}

/// Puts the counts `es` one after the other into `map`.
fn put_counts(map: &mut Vec<(KeyStrokeChar, usize)>, es: &[(KeyStrokeChar, usize)], add: bool)
    ensures
        final(map)@ == fold_counts(old(map)@, es@, add),
{
    let mut i: usize = 0;
    while i < es.len()
        invariant
            i <= es@.len(),
            map@ == fold_counts(old(map)@, es@.take(i as int), add),
        decreases es@.len() - i,
    {
        let (k, n) = es[i];
        put_count(map, k, n, add);
        proof {
            assert(es@.take(i + 1).drop_last() =~= es@.take(i as int));
            assert(es@.take(i + 1).last() == es@[i as int]);
        }
        i = i + 1;
    }
    assert(es@.take(i as int) =~= es@);
}

/// A copy of keyed counts.
fn copy_counts(v: &Vec<(KeyStrokeChar, usize)>) -> (r: Vec<(KeyStrokeChar, usize)>)
    ensures
        r@ == v@,
{
    let mut r: Vec<(KeyStrokeChar, usize)> = Vec::new();
    let mut i: usize = 0;
    while i < v.len()
        invariant
            i <= v@.len(),
            r@ == v@.take(i as int),
        decreases v@.len() - i,
    {
        r.push(v[i]);
        i = i + 1;
        assert(r@ =~= v@.take(i as int));
    }
    assert(v@.take(i as int) =~= v@);
    r
}

/// A count of one for each key.
pub open spec fn ones(ks: Seq<KeyStrokeChar>) -> Seq<(KeyStrokeChar, usize)> {
    Seq::new(ks.len(), |i: int| (ks[i], 1usize))
}

/// Whether `a` comes before `b` in a ranking: more counts first, then the smaller key.
pub open spec fn ranks_before(a: (KeyStrokeChar, usize), b: (KeyStrokeChar, usize)) -> bool {
    a.1 > b.1 || (a.1 == b.1 && char_key(a.0) < char_key(b.0))
}

/// What is known of a ranking under construction from the first `i` entries of `m`.
pub open spec fn ranking_of(r: Seq<(KeyStrokeChar, usize)>, m: Seq<(KeyStrokeChar, usize)>, i: int) -> bool {
    &&& r.len() == i
    &&& forall|a: int, b: int| 0 <= a < b < r.len() ==> ranks_before(#[trigger] r[a], #[trigger] r[b])
    &&& forall|a: int| 0 <= a < r.len() ==> exists|j: int| 0 <= j < i && #[trigger] r[a] == m[j]
    &&& forall|j: int| 0 <= j < i ==> exists|a: int| 0 <= a < r.len() && r[a] == #[trigger] m[j]
}

/// The entries of a ranking of the first `i` entries of counts sorted by key have smaller
/// keys than the `i`-th entry.
proof fn lemma_ranking_keys_smaller(r: Seq<(KeyStrokeChar, usize)>, m: Seq<(KeyStrokeChar, usize)>, i: int)
    requires
        counts_sorted(m),
        0 <= i < m.len(),
        ranking_of(r, m, i),
    ensures
        forall|a: int| 0 <= a < r.len() ==> char_key(#[trigger] r[a].0) < char_key(m[i].0),
{
    assert forall|a: int| 0 <= a < r.len() implies char_key(#[trigger] r[a].0) < char_key(m[i].0) by {
        let j = choose|j: int| 0 <= j < i && r[a] == m[j];
        let mj = m[j];
        let mi = m[i];
        assert(char_key(mj.0) < char_key(mi.0));
    }
}

/// Inserting an entry of a larger key after the entries of at least its count keeps a
/// ranking.
proof fn lemma_rank_insert_order(before: Seq<(KeyStrokeChar, usize)>, x: (KeyStrokeChar, usize), p: int)
    requires
        0 <= p <= before.len(),
        forall|a: int| 0 <= a < p ==> (#[trigger] before[a]).1 >= x.1,
        p < before.len() ==> before[p].1 < x.1,
        forall|a: int, b: int| 0 <= a < b < before.len() ==> ranks_before(#[trigger] before[a], #[trigger] before[b]),
        forall|a: int| 0 <= a < before.len() ==> char_key(#[trigger] before[a].0) < char_key(x.0),
    ensures
        forall|a: int, b: int| 0 <= a < b < before.insert(p, x).len() ==> ranks_before(#[trigger] before.insert(p, x)[a], #[trigger] before.insert(p, x)[b]),
{
    let r = before.insert(p, x);
    assert forall|a: int, b: int| 0 <= a < b < r.len() implies ranks_before(#[trigger] r[a], #[trigger] r[b]) by {
        if b < p {
            assert(r[a] == before[a] && r[b] == before[b]);
        } else if b == p {
            assert(r[a] == before[a]);
        } else if a < p {
            assert(r[a] == before[a] && r[b] == before[b - 1]);
        } else if a == p {
            assert(r[b] == before[b - 1]);
            if b - 1 != p {
                assert(ranks_before(before[p], before[b - 1]));
            }
        } else {
            assert(r[a] == before[a - 1] && r[b] == before[b - 1]);
        }
    }
}

/// Inserting the `i`-th entry into a ranking of the first `i` keeps exactly the entries.
proof fn lemma_rank_insert_entries(before: Seq<(KeyStrokeChar, usize)>, x: (KeyStrokeChar, usize), p: int, m: Seq<(KeyStrokeChar, usize)>, i: int)
    requires
        0 <= i < m.len(),
        x == m[i],
        0 <= p <= before.len(),
        ranking_of(before, m, i),
    ensures
        forall|a: int| 0 <= a < before.insert(p, x).len() ==> exists|j: int| 0 <= j < i + 1 && #[trigger] before.insert(p, x)[a] == m[j],
        forall|j: int| 0 <= j < i + 1 ==> exists|a: int| 0 <= a < before.insert(p, x).len() && before.insert(p, x)[a] == #[trigger] m[j],
{
    let r = before.insert(p, x);
    assert forall|a: int| 0 <= a < r.len() implies exists|j: int| 0 <= j < i + 1 && #[trigger] r[a] == m[j] by {
        if a < p {
            assert(r[a] == before[a]);
            let j = choose|j: int| 0 <= j < i && before[a] == m[j];
        } else if a == p {
            assert(r[a] == m[i]);
        } else {
            assert(r[a] == before[a - 1]);
            let j = choose|j: int| 0 <= j < i && before[a - 1] == m[j];
        }
    }
    assert forall|j: int| 0 <= j < i + 1 implies exists|a: int| 0 <= a < r.len() && r[a] == #[trigger] m[j] by {
        if j == i {
            assert(r[p] == m[j]);
        } else {
            let a = choose|a: int| 0 <= a < before.len() && before[a] == m[j];
            if a < p {
                assert(r[a] == before[a]);
            } else {
                assert(r[a + 1] == before[a]);
            }
        }
    }
}

/// The index of the first entry of a ranking with a count smaller than `c` (the length when
/// there is none).
fn rank_position(r: &Vec<(KeyStrokeChar, usize)>, c: usize) -> (p: usize)
    ensures
        p <= r@.len(),
        forall|a: int| 0 <= a < p ==> (#[trigger] r@[a]).1 >= c,
        p < r@.len() ==> r@[p as int].1 < c,
{
    let mut p: usize = 0;
    while p < r.len() && r[p].1 >= c
        invariant
            p <= r@.len(),
            forall|a: int| 0 <= a < p ==> (#[trigger] r@[a]).1 >= c,
        decreases r@.len() - p,
    {
        p = p + 1;
    }
    p
}

/// Inserts the `i`-th entry of counts sorted by key into a ranking of the first `i`.
#[verifier::spinoff_prover]
#[verifier::rlimit(30)]
fn insert_ranked(r: &mut Vec<(KeyStrokeChar, usize)>, x: (KeyStrokeChar, usize), Ghost(m): Ghost<Seq<(KeyStrokeChar, usize)>>, Ghost(i): Ghost<int>)
    requires
        counts_sorted(m),
        0 <= i < m.len(),
        x == m[i],
        ranking_of(old(r)@, m, i),
    ensures
        ranking_of(final(r)@, m, i + 1),
{
    let p = rank_position(r, x.1);
    let ghost before = r@;
    proof {
        lemma_ranking_keys_smaller(before, m, i);
        lemma_rank_insert_order(before, x, p as int);
        lemma_rank_insert_entries(before, x, p as int, m, i);
    }
    r.insert(p, x);
    assert(r@ == before.insert(p as int, x));
}

/// The skill statistics of one key.
#[derive(Debug, PartialEq, Eq, Hash)]
pub struct EntitySkillStatistics {
    entity: KeyStrokeChar,
    count: usize,
    cumulative_time: Duration,
    wrong_count_map: Vec<(KeyStrokeChar, usize)>,
    completely_correct_count: usize,
}

impl EntitySkillStatistics {
    /// The mistaken keys are in the order of their characters, each once.
    #[verifier::type_invariant]
    spec fn inv(self) -> bool {
        counts_sorted(self.wrong_count_map@)
    }

    pub closed spec fn spec_entity(self) -> KeyStrokeChar {
        self.entity
    }

    pub closed spec fn spec_count(self) -> usize {
        self.count
    }

    pub closed spec fn spec_cumulative_time(self) -> Duration {
        self.cumulative_time
    }

    pub closed spec fn spec_wrong_counts(self) -> Seq<(KeyStrokeChar, usize)> {
        self.wrong_count_map@
    }

    pub closed spec fn spec_completely_correct_count(self) -> usize {
        self.completely_correct_count
    }

    /// The statistics of the key `entity`, typed `count` times in `cumulative_time` in all,
    /// `completely_correct_count` times without a miss, with the keys typed by mistake in its
    /// place and how often (the last count of a key given twice is kept).
    pub fn new_with(
        entity: KeyStrokeChar,
        count: usize,
        cumulative_time: Duration,
        wrong_count_map: Vec<(KeyStrokeChar, usize)>,
        completely_correct_count: usize,
    ) -> (r: Self)
        ensures
            r.spec_entity() == entity,
            r.spec_count() == count,
            r.spec_cumulative_time() == cumulative_time,
            r.spec_wrong_counts() == fold_counts(Seq::empty(), wrong_count_map@, false),
            r.spec_completely_correct_count() == completely_correct_count,
            counts_sorted(r.spec_wrong_counts()),
    {
        let mut map: Vec<(KeyStrokeChar, usize)> = Vec::new();
        put_counts(&mut map, wrong_count_map.as_slice(), false);
        proof {
            lemma_fold_counts_sorted(Seq::empty(), wrong_count_map@, false);
        }
        EntitySkillStatistics { entity, count, cumulative_time, wrong_count_map: map, completely_correct_count }
    }

    /// Returns the time taken by all the key strokes of the key.
    pub fn cumulative_time(&self) -> (r: Duration)
        ensures
            r == self.spec_cumulative_time(),
    {
        self.cumulative_time
    }

    /// Returns the keys typed by mistake in place of the key and how often, in the order of
    /// the keys.
    pub fn wrong_count_map(&self) -> (r: &[(KeyStrokeChar, usize)])
        ensures
            r@ == self.spec_wrong_counts(),
    {
        self.wrong_count_map.as_slice()
    }

    /// Returns the key.
    pub fn entity(&self) -> (r: &KeyStrokeChar)
        ensures
            *r == self.spec_entity(),
    {
        &self.entity
    }

    /// Returns how often the key was typed.
    pub fn count(&self) -> (r: usize)
        ensures
            r == self.spec_count(),
    {
        self.count
    }

    /// Returns how often the key was typed without a miss before it.
    pub fn completely_correct_count(&self) -> (r: usize)
        ensures
            r == self.spec_completely_correct_count(),
    {
        self.completely_correct_count
    }

    /// Returns the average time taken to type the key: the cumulative time divided by the
    /// count, 0 when the key was never typed.
    pub fn average_time(&self) -> (r: Duration)
        ensures
            self.spec_count() == 0 ==> r.spec_nanos() == 0,
            self.spec_count() > 0 ==> r.spec_nanos() == self.spec_cumulative_time().spec_nanos() / (self.spec_count() as int),
    {
        if self.count == 0 {
            Duration::zero()
        } else {
            self.cumulative_time.div_count(self.count)
        }
    }

    /// Returns the keys typed by mistake in place of this one with how often, the most
    /// frequent first (keys of equal counts in the order of their characters).
    pub fn wrong_count_ranking(&self) -> (r: Vec<(KeyStrokeChar, usize)>)
        ensures
            ranking_of(r@, self.spec_wrong_counts(), self.spec_wrong_counts().len() as int),
    {
        proof {
            use_type_invariant(self);
        }
        let src = &self.wrong_count_map;
        let ghost m = src@;
        let mut r: Vec<(KeyStrokeChar, usize)> = Vec::new();
        let mut i: usize = 0;
        while i < src.len()
            invariant
                m == src@,
                counts_sorted(m),
                i <= m.len(),
                ranking_of(r@, m, i as int),
            decreases m.len() - i,
        {
            insert_ranked(&mut r, src[i], Ghost(m), Ghost(i as int));
            i = i + 1;
        }
        r
    }

    /// The statistics of this key together with `rhs` (whose key is not looked at): counts
    /// and times are added, saturating, and the mistaken keys are merged.
    pub fn combined(self, rhs: Self) -> (r: Self)
        ensures
            r.spec_entity() == self.spec_entity(),
            r.spec_count() == sat_add(self.spec_count() as int, rhs.spec_count() as int),
            r.spec_cumulative_time() == self.spec_cumulative_time().spec_saturating_add(rhs.spec_cumulative_time()),
            r.spec_wrong_counts() == fold_counts(self.spec_wrong_counts(), rhs.spec_wrong_counts(), true),
            r.spec_completely_correct_count() == sat_add(
                self.spec_completely_correct_count() as int,
                rhs.spec_completely_correct_count() as int,
            ),
            counts_sorted(self.spec_wrong_counts()) ==> counts_sorted(r.spec_wrong_counts()),
    {
        proof {
            use_type_invariant(&self);
        }
        let mut map = self.wrong_count_map;
        put_counts(&mut map, rhs.wrong_count_map.as_slice(), true);
        proof {
            if counts_sorted(self.wrong_count_map@) {
                lemma_fold_counts_sorted(self.wrong_count_map@, rhs.wrong_count_map@, true);
            }
        }
        EntitySkillStatistics {
            entity: self.entity,
            count: self.count.saturating_add(rhs.count),
            cumulative_time: self.cumulative_time.saturating_add(&rhs.cumulative_time),
            wrong_count_map: map,
            completely_correct_count: self.completely_correct_count.saturating_add(rhs.completely_correct_count),
        }
    }
}

/// The skill statistics of one key, the key aside.
#[derive(Debug, PartialEq, Eq, Hash)]
pub struct PrimitiveSkillStatistics {
    count: usize,
    cumulative_time: Duration,
    wrong_count_map: Vec<(KeyStrokeChar, usize)>,
    completely_correct_count: usize,
}

impl PrimitiveSkillStatistics {
    /// The mistaken keys are in the order of their characters, each once.
    #[verifier::type_invariant]
    spec fn inv(self) -> bool {
        counts_sorted(self.wrong_count_map@)
    }

    pub closed spec fn spec_count(self) -> usize {
        self.count
    }

    pub closed spec fn spec_cumulative_time(self) -> Duration {
        self.cumulative_time
    }

    pub closed spec fn spec_wrong_counts(self) -> Seq<(KeyStrokeChar, usize)> {
        self.wrong_count_map@
    }

    pub closed spec fn spec_completely_correct_count(self) -> usize {
        self.completely_correct_count
    }

    /// `new` is `old` after one more typing of the key, in `required_time`, after the mistaken
    /// keys `wrong`.
    pub open spec fn updated_from(new: Self, old: Self, required_time: Duration, wrong: Seq<KeyStrokeChar>) -> bool {
        Self::updated_values(
            new,
            old.spec_count(),
            old.spec_cumulative_time(),
            old.spec_wrong_counts(),
            old.spec_completely_correct_count(),
            required_time,
            wrong,
        )
    }

    /// `new` holds the statistics of the count, time, mistaken keys and correct count given,
    /// after one more typing of the key, in `required_time`, after the mistaken keys `wrong`.
    pub open spec fn updated_values(
        new: Self,
        count: usize,
        time: Duration,
        wrong_counts: Seq<(KeyStrokeChar, usize)>,
        completely_correct_count: usize,
        required_time: Duration,
        wrong: Seq<KeyStrokeChar>,
    ) -> bool {
        &&& new.spec_count() == sat_add(count as int, 1)
        &&& new.spec_cumulative_time() == time.spec_saturating_add(required_time)
        &&& if wrong.len() == 0 {
            &&& new.spec_completely_correct_count() == sat_add(completely_correct_count as int, 1)
            &&& new.spec_wrong_counts() == wrong_counts
        } else {
            &&& new.spec_completely_correct_count() == completely_correct_count
            &&& new.spec_wrong_counts() == fold_counts(wrong_counts, ones(wrong), true)
        }
    }

    /// Statistics of a key never typed.
    pub fn new() -> (r: Self)
        ensures
            r.spec_count() == 0,
            r.spec_cumulative_time() == Duration::spec_zero(),
            r.spec_wrong_counts() == Seq::<(KeyStrokeChar, usize)>::empty(),
            r.spec_completely_correct_count() == 0,
    {
        PrimitiveSkillStatistics {
            count: 0,
            cumulative_time: Duration::zero(),
            wrong_count_map: Vec::new(),
            completely_correct_count: 0,
        }
    }

    /// Takes one more typing of the key into account, in `required_time`, after the mistaken
    /// keys `wrong_entities` (each counted once more).
    pub fn update(&mut self, required_time: Duration, wrong_entities: &[KeyStrokeChar])
        ensures
            Self::updated_from(*final(self), *old(self), required_time, wrong_entities@),
            counts_sorted(old(self).spec_wrong_counts()) ==> counts_sorted(final(self).spec_wrong_counts()),
    {
        proof {
            use_type_invariant(&*self);
        }
        self.count = self.count.saturating_add(1);
        self.cumulative_time = self.cumulative_time.saturating_add(&required_time);
        if wrong_entities.len() == 0 {
            self.completely_correct_count = self.completely_correct_count.saturating_add(1);
        } else {
            let mut es: Vec<(KeyStrokeChar, usize)> = Vec::new();
            let mut i: usize = 0;
            while i < wrong_entities.len()
                invariant
                    i <= wrong_entities@.len(),
                    es@ =~= ones(wrong_entities@.take(i as int)),
                decreases wrong_entities@.len() - i,
            {
                es.push((wrong_entities[i], 1));
                i = i + 1;
            }
            assert(wrong_entities@.take(i as int) =~= wrong_entities@);
            let ghost before = self.wrong_count_map@;
            let mut map = copy_counts(&self.wrong_count_map);
            put_counts(&mut map, es.as_slice(), true);
            proof {
                lemma_fold_counts_sorted(before, es@, true);
            }
            self.wrong_count_map = map;
        }
    }

    /// The statistics of the key `entity`.
    pub fn into_with_entity(self, entity: KeyStrokeChar) -> (r: EntitySkillStatistics)
        ensures
            r.spec_entity() == entity,
            r.spec_count() == self.spec_count(),
            r.spec_cumulative_time() == self.spec_cumulative_time(),
            r.spec_wrong_counts() == self.spec_wrong_counts(),
            r.spec_completely_correct_count() == self.spec_completely_correct_count(),
    {
        proof {
            use_type_invariant(&self);
        }
        EntitySkillStatistics {
            entity,
            count: self.count,
            cumulative_time: self.cumulative_time,
            wrong_count_map: self.wrong_count_map,
            completely_correct_count: self.completely_correct_count,
        }
    }
}

/// Whether keyed statistics are in strictly increasing order of their keys.
pub open spec fn stats_sorted(s: Seq<(KeyStrokeChar, PrimitiveSkillStatistics)>) -> bool {
    forall|i: int, j: int| #![trigger s[i], s[j]] 0 <= i < j < s.len() ==> char_key(s[i].0) < char_key(s[j].0)
}

/// The skill statistics of every key typed correctly, in the order of the keys.
#[derive(Debug, Clone, PartialEq, Eq, Hash)]
pub struct SkillStatisticsManager {
    single_key_stroke: Vec<(KeyStrokeChar, PrimitiveSkillStatistics)>,
}

impl SkillStatisticsManager {
    pub closed spec fn spec_entries(self) -> Seq<(KeyStrokeChar, PrimitiveSkillStatistics)> {
        self.single_key_stroke@
    }

    /// Statistics of no key.
    pub fn new() -> (r: Self)
        ensures
            r.spec_entries().len() == 0,
    {
        SkillStatisticsManager { single_key_stroke: Vec::new() }
    }

    /// `new_s` is `old_s` after the key `k` was typed correctly in `t` after the mistaken keys
    /// `w`: the statistics of other keys are kept, those of `k` are updated or, when it was
    /// never typed, started.
    pub open spec fn recorded(
        new_s: Seq<(KeyStrokeChar, PrimitiveSkillStatistics)>,
        old_s: Seq<(KeyStrokeChar, PrimitiveSkillStatistics)>,
        k: KeyStrokeChar,
        t: Duration,
        w: Seq<KeyStrokeChar>,
    ) -> bool {
        &&& forall|i: int| 0 <= i < new_s.len() && char_key(#[trigger] new_s[i].0) != char_key(k) ==> exists|j: int|
            0 <= j < old_s.len() && old_s[j] == new_s[i]
        &&& forall|j: int| 0 <= j < old_s.len() && char_key(#[trigger] old_s[j].0) != char_key(k) ==> exists|i: int|
            0 <= i < new_s.len() && old_s[j] == new_s[i]
        &&& exists|i: int| 0 <= i < new_s.len() && char_key(#[trigger] new_s[i].0) == char_key(k) && {
            ||| exists|j: int| 0 <= j < old_s.len() && char_key(old_s[j].0) == char_key(k)
                && PrimitiveSkillStatistics::updated_from(new_s[i].1, old_s[j].1, t, w)
            ||| (forall|j: int| 0 <= j < old_s.len() ==> char_key(#[trigger] old_s[j].0) != char_key(k))
                && PrimitiveSkillStatistics::updated_values(new_s[i].1, 0, Duration::spec_zero(), Seq::empty(), 0, t, w)
        }
    }

    /// Takes the key typed correctly by a `KeyStrokeCorrect` event into account; other events
    /// change nothing.
    pub fn consume_event(&mut self, event: &StatisticalEvent)
        requires
            stats_sorted(old(self).spec_entries()),
        ensures
            stats_sorted(final(self).spec_entries()),
            !(*event is KeyStrokeCorrect) ==> final(self).spec_entries() == old(self).spec_entries(),
            *event matches StatisticalEvent::KeyStrokeCorrect(c) ==> Self::recorded(
                final(self).spec_entries(),
                old(self).spec_entries(),
                c.spec_key_stroke(),
                c.spec_required_time(),
                c.spec_wrong_key_strokes(),
            ),
    {
        match event {
            StatisticalEvent::KeyStrokeCorrect(c) => {
                self.record(c.key_stroke(), c.required_time(), c.wrong_key_strokes());
            },
            _ => {},
        }
    }

    /// Takes the key `k` typed correctly in `t` after the mistaken keys `w` into account.
    fn record(&mut self, k: KeyStrokeChar, t: Duration, w: &Vec<KeyStrokeChar>)
        requires
            stats_sorted(old(self).spec_entries()),
        ensures
            stats_sorted(final(self).spec_entries()),
            Self::recorded(final(self).spec_entries(), old(self).spec_entries(), k, t, w@),
    {
        let kc = k.to_char();
        let ghost old_s = self.single_key_stroke@;
        let mut i: usize = 0;
        while i < self.single_key_stroke.len() && self.single_key_stroke[i].0.to_char() < kc
            invariant
                i <= self.single_key_stroke@.len(),
                self.single_key_stroke@ == old_s,
                kc == k.spec_char(),
                forall|j: int| 0 <= j < i ==> char_key(#[trigger] old_s[j].0) < char_key(k),
            decreases self.single_key_stroke@.len() - i,
        {
            i = i + 1;
        }
        if i < self.single_key_stroke.len() && self.single_key_stroke[i].0.to_char() == kc {
            let (key, mut stats) = self.single_key_stroke.remove(i);
            let ghost old_stats = stats;
            stats.update(t, w.as_slice());
            self.single_key_stroke.insert(i, (key, stats));
            proof {
                lemma_recorded_update(self.single_key_stroke@, old_s, i as int, k, t, w@, old_stats);
            }
        } else {
            let mut stats = PrimitiveSkillStatistics::new();
            stats.update(t, w.as_slice());
            self.single_key_stroke.insert(i, (k, stats));
            proof {
                lemma_recorded_insert(self.single_key_stroke@, old_s, i as int, k, t, w@, stats);
            }
        }
    }

    /// The statistics of `r` are those of this manager, key by key in the same order.
    pub open spec fn reports(self, r: SkillStatistics) -> bool {
        &&& r.spec_entries().len() == self.spec_entries().len()
        &&& forall|i: int| 0 <= i < r.spec_entries().len() ==> {
            &&& (#[trigger] r.spec_entries()[i]).spec_entity() == self.spec_entries()[i].0
            &&& r.spec_entries()[i].spec_count() == self.spec_entries()[i].1.spec_count()
            &&& r.spec_entries()[i].spec_cumulative_time() == self.spec_entries()[i].1.spec_cumulative_time()
            &&& r.spec_entries()[i].spec_wrong_counts() == self.spec_entries()[i].1.spec_wrong_counts()
            &&& r.spec_entries()[i].spec_completely_correct_count() == self.spec_entries()[i].1.spec_completely_correct_count()
        }
    }

    /// Returns the skill statistics of every key typed correctly, in the order of the keys.
    pub fn construct_skill_statistics(&self) -> (r: SkillStatistics)
        ensures
            self.reports(r),
    {
        let mut v: Vec<EntitySkillStatistics> = Vec::new();
        let mut i: usize = 0;
        while i < self.single_key_stroke.len()
            invariant
                i <= self.spec_entries().len(),
                v@.len() == i,
                forall|k: int| 0 <= k < i ==> {
                    &&& (#[trigger] v@[k]).spec_entity() == self.spec_entries()[k].0
                    &&& v@[k].spec_count() == self.spec_entries()[k].1.spec_count()
                    &&& v@[k].spec_cumulative_time() == self.spec_entries()[k].1.spec_cumulative_time()
                    &&& v@[k].spec_wrong_counts() == self.spec_entries()[k].1.spec_wrong_counts()
                    &&& v@[k].spec_completely_correct_count() == self.spec_entries()[k].1.spec_completely_correct_count()
                },
            decreases self.spec_entries().len() - i,
        {
            let (k, stats) = &self.single_key_stroke[i];
            proof {
                use_type_invariant(stats);
            }
            let e = EntitySkillStatistics {
                entity: *k,
                count: stats.count,
                cumulative_time: stats.cumulative_time,
                wrong_count_map: copy_counts(&stats.wrong_count_map),
                completely_correct_count: stats.completely_correct_count,
            };
            v.push(e);
            i = i + 1;
        }
        SkillStatistics { single_key_stroke: v }
    }
}

/// Updating the statistics of the key found at `i` records the key.
proof fn lemma_recorded_update(
    new_s: Seq<(KeyStrokeChar, PrimitiveSkillStatistics)>,
    old_s: Seq<(KeyStrokeChar, PrimitiveSkillStatistics)>,
    i: int,
    k: KeyStrokeChar,
    t: Duration,
    w: Seq<KeyStrokeChar>,
    old_stats: PrimitiveSkillStatistics,
)
    requires
        stats_sorted(old_s),
        0 <= i < old_s.len(),
        char_key(old_s[i].0) == char_key(k),
        old_stats == old_s[i].1,
        new_s.len() == old_s.len(),
        new_s[i].0 == old_s[i].0,
        PrimitiveSkillStatistics::updated_from(new_s[i].1, old_stats, t, w),
        forall|a: int| 0 <= a < new_s.len() && a != i ==> new_s[a] == old_s[a],
    ensures
        stats_sorted(new_s),
        SkillStatisticsManager::recorded(new_s, old_s, k, t, w),
{
    assert forall|a: int, b: int| #![trigger new_s[a], new_s[b]] 0 <= a < b < new_s.len() implies char_key(new_s[a].0) < char_key(new_s[b].0) by {
        assert(char_key(new_s[a].0) == char_key(old_s[a].0));
        assert(char_key(new_s[b].0) == char_key(old_s[b].0));
    }
    assert forall|a: int| 0 <= a < new_s.len() && char_key(#[trigger] new_s[a].0) != char_key(k) implies exists|j: int|
        0 <= j < old_s.len() && old_s[j] == new_s[a] by {
        assert(old_s[a] == new_s[a]);
    }
    assert forall|j: int| 0 <= j < old_s.len() && char_key(#[trigger] old_s[j].0) != char_key(k) implies exists|a: int|
        0 <= a < new_s.len() && old_s[j] == new_s[a] by {
        assert(old_s[j] == new_s[j]);
    }
    assert(char_key(new_s[i].0) == char_key(k));
}

/// Inserting the statistics of a key never typed at its place records the key.
proof fn lemma_recorded_insert(
    new_s: Seq<(KeyStrokeChar, PrimitiveSkillStatistics)>,
    old_s: Seq<(KeyStrokeChar, PrimitiveSkillStatistics)>,
    i: int,
    k: KeyStrokeChar,
    t: Duration,
    w: Seq<KeyStrokeChar>,
    stats: PrimitiveSkillStatistics,
)
    requires
        stats_sorted(old_s),
        0 <= i <= old_s.len(),
        forall|j: int| 0 <= j < i ==> char_key(#[trigger] old_s[j].0) < char_key(k),
        i < old_s.len() ==> char_key(old_s[i].0) > char_key(k),
        new_s == old_s.insert(i, (k, stats)),
        PrimitiveSkillStatistics::updated_values(stats, 0, Duration::spec_zero(), Seq::empty(), 0, t, w),
    ensures
        stats_sorted(new_s),
        SkillStatisticsManager::recorded(new_s, old_s, k, t, w),
{
    assert forall|a: int, b: int| #![trigger new_s[a], new_s[b]] 0 <= a < b < new_s.len() implies char_key(new_s[a].0) < char_key(new_s[b].0) by {
        if b < i {
            assert(new_s[a] == old_s[a] && new_s[b] == old_s[b]);
        } else if b == i {
            assert(new_s[a] == old_s[a]);
        } else if a < i {
            assert(new_s[a] == old_s[a] && new_s[b] == old_s[b - 1]);
        } else if a == i {
            assert(new_s[b] == old_s[b - 1]);
            if b - 1 > i {
                assert(char_key(old_s[i].0) < char_key(old_s[b - 1].0));
            }
        } else {
            assert(new_s[a] == old_s[a - 1] && new_s[b] == old_s[b - 1]);
        }
    }
    assert forall|a: int| 0 <= a < new_s.len() && char_key(#[trigger] new_s[a].0) != char_key(k) implies exists|j: int|
        0 <= j < old_s.len() && old_s[j] == new_s[a] by {
        if a < i {
            assert(old_s[a] == new_s[a]);
        } else {
            assert(old_s[a - 1] == new_s[a]);
        }
    }
    assert forall|j: int| 0 <= j < old_s.len() && char_key(#[trigger] old_s[j].0) != char_key(k) implies exists|a: int|
        0 <= a < new_s.len() && old_s[j] == new_s[a] by {
        if j < i {
            assert(old_s[j] == new_s[j]);
        } else {
            assert(old_s[j] == new_s[j + 1]);
        }
    }
    assert forall|j: int| 0 <= j < old_s.len() implies char_key(#[trigger] old_s[j].0) != char_key(k) by {
        if j > i {
            assert(char_key(old_s[i].0) < char_key(old_s[j].0));
        }
    }
    assert(new_s[i] == (k, stats));
    assert(char_key(new_s[i].0) == char_key(k));
    assert(PrimitiveSkillStatistics::updated_values(new_s[i].1, 0, Duration::spec_zero(), Seq::empty(), 0, t, w));
    assert(0 <= i < new_s.len() && char_key(new_s[i].0) == char_key(k) && {
        ||| exists|j: int| 0 <= j < old_s.len() && char_key(old_s[j].0) == char_key(k)
            && PrimitiveSkillStatistics::updated_from(new_s[i].1, old_s[j].1, t, w)
        ||| (forall|j: int| 0 <= j < old_s.len() ==> char_key(#[trigger] old_s[j].0) != char_key(k))
            && PrimitiveSkillStatistics::updated_values(new_s[i].1, 0, Duration::spec_zero(), Seq::empty(), 0, t, w)
    });
}

/// Whether statistics of keys are in strictly increasing order of their keys.
pub open spec fn entities_sorted(s: Seq<EntitySkillStatistics>) -> bool {
    forall|i: int, j: int| #![trigger s[i], s[j]] 0 <= i < j < s.len() ==> char_key(s[i].spec_entity()) < char_key(s[j].spec_entity())
}

/// Whether some statistics of `s` are of the key of code `c`.
pub open spec fn has_key(s: Seq<EntitySkillStatistics>, c: int) -> bool {
    exists|i: int| 0 <= i < s.len() && char_key(#[trigger] s[i].spec_entity()) == c
}

/// The skill statistics of a typing session: the statistics of every key typed.
#[derive(Debug, Clone, PartialEq, Eq, Hash)]
pub struct SkillStatistics {
    single_key_stroke: Vec<EntitySkillStatistics>,
}

impl SkillStatistics {
    pub closed spec fn spec_entries(self) -> Seq<EntitySkillStatistics> {
        self.single_key_stroke@
    }

    /// The skill statistics of these keys.
    pub fn new_with(single_key_stroke: Vec<EntitySkillStatistics>) -> (r: Self)
        ensures
            r.spec_entries() == single_key_stroke@,
    {
        SkillStatistics { single_key_stroke }
    }

    /// Returns the statistics of every key typed.
    pub fn single_key_stroke(&self) -> (r: &[EntitySkillStatistics])
        ensures
            r@ == self.spec_entries(),
    {
        self.single_key_stroke.as_slice()
    }

    /// The skill statistics of two sessions together, in the order of the keys: the
    /// statistics of a key of `rhs` are combined with those of the same key of `self`, those
    /// of a key given twice in `self` are replaced by the later ones.
    pub fn combined(self, rhs: Self) -> (r: Self)
        ensures
            entities_sorted(r.spec_entries()),
            r.spec_entries().len() <= self.spec_entries().len() + rhs.spec_entries().len(),
            forall|c: int| #[trigger] has_key(r.spec_entries(), c) <==> has_key(self.spec_entries(), c) || has_key(rhs.spec_entries(), c),
    {
        let mut result: Vec<EntitySkillStatistics> = Vec::new();
        let mut a = self.single_key_stroke;
        let mut b = rhs.single_key_stroke;
        let total_a = a.len();
        a.append(&mut b);
        let ghost all = a@;
        assert(all == self.spec_entries() + rhs.spec_entries());
        let mut n: usize = 0;
        while n < a.len()
            invariant
                n <= a@.len(),
                a@ == all,
                entities_sorted(result@),
                result@.len() <= n,
                forall|c: int| #[trigger] has_key(result@, c) <==> has_key(all.take(n as int), c),
            decreases a@.len() - n,
        {
            let e = a[n].clone_stats();
            let add = n >= total_a;
            let ghost before = result@;
            put_entity(&mut result, e, add);
            proof {
                assert forall|c: int| #[trigger] has_key(result@, c) <==> has_key(all.take(n + 1), c) by {
                    assert(all.take(n + 1) == all.take(n as int).push(all[n as int]));
                    if has_key(all.take(n + 1), c) {
                        let w = choose|w: int| 0 <= w < all.take(n + 1).len() && char_key(#[trigger] all.take(n + 1)[w].spec_entity()) == c;
                        if w < n {
                            assert(all.take(n as int)[w] == all.take(n + 1)[w]);
                            assert(has_key(all.take(n as int), c));
                        }
                    }
                    if has_key(all.take(n as int), c) {
                        let w = choose|w: int| 0 <= w < all.take(n as int).len() && char_key(#[trigger] all.take(n as int)[w].spec_entity()) == c;
                        assert(all.take(n + 1)[w] == all.take(n as int)[w]);
                    }
                    if c == char_key(e.spec_entity()) {
                        assert(all.take(n + 1)[n as int] == all[n as int]);
                    }
                }
            }
            n = n + 1;
        }
        proof {
            assert(all.take(all.len() as int) =~= all);
            assert forall|c: int| #[trigger] has_key(all, c) <==> has_key(self.spec_entries(), c) || has_key(rhs.spec_entries(), c) by {
                let la = self.spec_entries().len();
                if has_key(all, c) {
                    let w = choose|w: int| 0 <= w < all.len() && char_key(#[trigger] all[w].spec_entity()) == c;
                    if w < la {
                        assert(all[w] == self.spec_entries()[w]);
                    } else {
                        assert(all[w] == rhs.spec_entries()[w - la]);
                    }
                }
                if has_key(self.spec_entries(), c) {
                    let w = choose|w: int| 0 <= w < self.spec_entries().len() && char_key(#[trigger] self.spec_entries()[w].spec_entity()) == c;
                    assert(all[w] == self.spec_entries()[w]);
                }
                if has_key(rhs.spec_entries(), c) {
                    let w = choose|w: int| 0 <= w < rhs.spec_entries().len() && char_key(#[trigger] rhs.spec_entries()[w].spec_entity()) == c;
                    assert(all[la + w] == rhs.spec_entries()[w]);
                }
            }
        }
        SkillStatistics { single_key_stroke: result }
    }
}

impl Clone for EntitySkillStatistics {
    fn clone(&self) -> (r: Self)
        ensures
            r.spec_entity() == self.spec_entity(),
            r.spec_count() == self.spec_count(),
            r.spec_cumulative_time() == self.spec_cumulative_time(),
            r.spec_wrong_counts() == self.spec_wrong_counts(),
            r.spec_completely_correct_count() == self.spec_completely_correct_count(),
    {
        proof {
            use_type_invariant(self);
        }
        EntitySkillStatistics {
            entity: self.entity,
            count: self.count,
            cumulative_time: self.cumulative_time,
            wrong_count_map: copy_counts(&self.wrong_count_map),
            completely_correct_count: self.completely_correct_count,
        }
    }
}

impl Clone for PrimitiveSkillStatistics {
    fn clone(&self) -> (r: Self)
        ensures
            r.spec_count() == self.spec_count(),
            r.spec_cumulative_time() == self.spec_cumulative_time(),
            r.spec_wrong_counts() == self.spec_wrong_counts(),
            r.spec_completely_correct_count() == self.spec_completely_correct_count(),
    {
        proof {
            use_type_invariant(self);
        }
        PrimitiveSkillStatistics {
            count: self.count,
            cumulative_time: self.cumulative_time,
            wrong_count_map: copy_counts(&self.wrong_count_map),
            completely_correct_count: self.completely_correct_count,
        }
    }
}

impl EntitySkillStatistics {
    /// A copy of these statistics.
    pub fn clone_stats(&self) -> (r: Self)
        ensures
            r.spec_entity() == self.spec_entity(),
            r.spec_count() == self.spec_count(),
            r.spec_cumulative_time() == self.spec_cumulative_time(),
            r.spec_wrong_counts() == self.spec_wrong_counts(),
            r.spec_completely_correct_count() == self.spec_completely_correct_count(),
    {
        proof {
            use_type_invariant(self);
        }
        EntitySkillStatistics {
            entity: self.entity,
            count: self.count,
            cumulative_time: self.cumulative_time,
            wrong_count_map: copy_counts(&self.wrong_count_map),
            completely_correct_count: self.completely_correct_count,
        }
    }
}

/// Puts the statistics `e` into statistics sorted by key: combined with (when `add`) or
/// replacing those of the same key, or inserted at their place.
fn put_entity(result: &mut Vec<EntitySkillStatistics>, e: EntitySkillStatistics, add: bool)
    requires
        entities_sorted(old(result)@),
    ensures
        entities_sorted(final(result)@),
        final(result)@.len() <= old(result)@.len() + 1,
        forall|c: int| #[trigger] has_key(final(result)@, c) <==> has_key(old(result)@, c) || c == char_key(e.spec_entity()),
{
    let kc = e.entity.to_char();
    let ghost old_s = result@;
    let mut i: usize = 0;
    while i < result.len() && result[i].entity.to_char() < kc
        invariant
            i <= result@.len(),
            result@ == old_s,
            kc == e.spec_entity().spec_char(),
            forall|j: int| 0 <= j < i ==> char_key(#[trigger] old_s[j].spec_entity()) < char_key(e.spec_entity()),
        decreases result@.len() - i,
    {
        i = i + 1;
    }
    if i < result.len() && result[i].entity.to_char() == kc {
        let old_e = result.remove(i);
        let new_e = if add {
            old_e.combined(e)
        } else {
            e
        };
        result.insert(i, new_e);
        proof {
            let new_s = result@;
            assert(new_s == old_s.update(i as int, new_e));
            assert(char_key(new_e.spec_entity()) == char_key(old_s[i as int].spec_entity()));
            assert forall|c: int| #[trigger] has_key(new_s, c) <==> has_key(old_s, c) || c == char_key(e.spec_entity()) by {
                if has_key(new_s, c) {
                    let w = choose|w: int| 0 <= w < new_s.len() && char_key(#[trigger] new_s[w].spec_entity()) == c;
                    if w != i {
                        assert(new_s[w] == old_s[w]);
                    }
                }
                if has_key(old_s, c) {
                    let w = choose|w: int| 0 <= w < old_s.len() && char_key(#[trigger] old_s[w].spec_entity()) == c;
                    if w != i {
                        assert(new_s[w] == old_s[w]);
                    } else {
                        assert(char_key(new_s[w].spec_entity()) == c);
                    }
                }
                if c == char_key(e.spec_entity()) {
                    assert(char_key(new_s[i as int].spec_entity()) == c);
                }
            }
            assert forall|a: int, b: int| #![trigger new_s[a], new_s[b]] 0 <= a < b < new_s.len() implies char_key(new_s[a].spec_entity()) < char_key(new_s[b].spec_entity()) by {
                assert(char_key(new_s[a].spec_entity()) == char_key(old_s[a].spec_entity()));
                assert(char_key(new_s[b].spec_entity()) == char_key(old_s[b].spec_entity()));
            }
        }
    } else {
        result.insert(i, e);
        proof {
            let new_s = result@;
            assert(new_s == old_s.insert(i as int, e));
            assert forall|c: int| #[trigger] has_key(new_s, c) <==> has_key(old_s, c) || c == char_key(e.spec_entity()) by {
                if has_key(new_s, c) {
                    let w = choose|w: int| 0 <= w < new_s.len() && char_key(#[trigger] new_s[w].spec_entity()) == c;
                    if w < i {
                        assert(new_s[w] == old_s[w]);
                    } else if w > i {
                        assert(new_s[w] == old_s[w - 1]);
                    }
                }
                if has_key(old_s, c) {
                    let w = choose|w: int| 0 <= w < old_s.len() && char_key(#[trigger] old_s[w].spec_entity()) == c;
                    if w < i {
                        assert(new_s[w] == old_s[w]);
                    } else {
                        assert(new_s[w + 1] == old_s[w]);
                    }
                }
                if c == char_key(e.spec_entity()) {
                    assert(new_s[i as int] == e);
                }
            }
            assert forall|a: int, b: int| #![trigger new_s[a], new_s[b]] 0 <= a < b < new_s.len() implies char_key(new_s[a].spec_entity()) < char_key(new_s[b].spec_entity()) by {
                if b < i {
                    assert(new_s[a] == old_s[a] && new_s[b] == old_s[b]);
                } else if b == i {
                    assert(new_s[a] == old_s[a]);
                } else if a < i {
                    assert(new_s[a] == old_s[a] && new_s[b] == old_s[b - 1]);
                } else if a == i {
                    assert(new_s[b] == old_s[b - 1]);
                    if b - 1 > i {
                        assert(char_key(old_s[i as int].spec_entity()) < char_key(old_s[b - 1].spec_entity()));
                    }
                } else {
                    assert(new_s[a] == old_s[a - 1] && new_s[b] == old_s[b - 1]);
                }
            }
        }
    }
}

} // verus!
