//! Parsing a line `word:reading1,reading2,...` into a vocabulary entry.
use vstd::prelude::*;

use crate::primitives::NonZeroUsize;
use crate::spell::{all_usable_in_spell, SpellString};
use crate::text::{chars_to_string, str_to_chars};
use crate::vocabulary::{VocabularyEntry, VocabularySpellElement};

verus! {

/// What went wrong when parsing a vocabulary line.
#[derive(Debug, Clone, PartialEq, Eq)]
pub enum VocabularyParseErrorKind {
    /// The input holds more than one line.
    MultipleLines,
    /// The line is not made of exactly two components separated by ':'.
    ComponentsCountMisMatch,
    /// '[' and ']' do not match.
    CompoundSymbolMisMatch,
    /// A compound '[]' is empty.
    EmptyCompound,
    /// The readings are not as many as the parts of the word.
    ViewAndSpellsCountMisMatch,
    /// A reading holds a character which cannot be used in a spell.
    InvalidSpellString(String),
    /// The parsed parts do not make an entry.
    Internal(String),
}

/// The error of parsing a vocabulary line.
#[derive(Debug, Clone, PartialEq, Eq)]
pub struct VocabularyParseError {
    kind: VocabularyParseErrorKind,
}

impl VocabularyParseError {
    pub closed spec fn spec_kind(self) -> VocabularyParseErrorKind {
        self.kind
    }

    pub fn new(kind: VocabularyParseErrorKind) -> (r: Self)
        ensures
            r.spec_kind() == kind,
    {
        VocabularyParseError { kind }
    }

    /// Returns what went wrong.
    pub fn kind(&self) -> (r: &VocabularyParseErrorKind)
        ensures
            *r == self.spec_kind(),
    {
        &self.kind
    }

    /// A description of the error.
    pub fn message(&self) -> (r: String)
        ensures
            r@ == match self.spec_kind() {
                VocabularyParseErrorKind::MultipleLines => "Multiple lines in input, expected a single line"@,
                VocabularyParseErrorKind::ComponentsCountMisMatch => "Component count mismatch, expected 2 components separated by ':'"@,
                VocabularyParseErrorKind::CompoundSymbolMisMatch => "Compound symbol mismatch, '[' and ']' don't match properly"@,
                VocabularyParseErrorKind::EmptyCompound => "Empty compound is not allowed"@,
                VocabularyParseErrorKind::ViewAndSpellsCountMisMatch => "View and spells count mismatch"@,
                VocabularyParseErrorKind::InvalidSpellString(s) => "Invalid spell string: "@ + s@,
                VocabularyParseErrorKind::Internal(s) => "Internal error: "@ + s@,
            },
    {
        let lit = match &self.kind {
            VocabularyParseErrorKind::MultipleLines => "Multiple lines in input, expected a single line",
            VocabularyParseErrorKind::ComponentsCountMisMatch => "Component count mismatch, expected 2 components separated by ':'",
            VocabularyParseErrorKind::CompoundSymbolMisMatch => "Compound symbol mismatch, '[' and ']' don't match properly",
            VocabularyParseErrorKind::EmptyCompound => "Empty compound is not allowed",
            VocabularyParseErrorKind::ViewAndSpellsCountMisMatch => "View and spells count mismatch",
            VocabularyParseErrorKind::InvalidSpellString(_) => "Invalid spell string: ",
            VocabularyParseErrorKind::Internal(_) => "Internal error: ",
        };
        let mut v = str_to_chars(lit);
        match &self.kind {
            VocabularyParseErrorKind::InvalidSpellString(s) | VocabularyParseErrorKind::Internal(s) => {
                let mut rest = str_to_chars(s.as_str());
                v.append(&mut rest);
            },
            _ => {},
        }
        chars_to_string(v.as_slice())
    }
}

/// The state after splitting `s` at non escaped `sep`: the components already split, the
/// current component, and whether the last character was an escaping backslash.
pub open spec fn split_state(s: Seq<char>, sep: char) -> (Seq<Seq<char>>, Seq<char>, bool)
    decreases s.len(),
{
    if s.len() == 0 {
        (Seq::empty(), Seq::empty(), false)
    } else {
        let (done, comp, esc) = split_state(s.drop_last(), sep);
        let c = s.last();
        if c == sep {
            if esc {
                (done, comp.push(c), false)
            } else {
                (done.push(comp), Seq::empty(), false)
            }
        } else if c == '\\' {
            if esc {
                (done, comp.push(c).push(c), false)
            } else {
                (done, comp, true)
            }
        } else {
            (done, (if esc { comp.push('\\') } else { comp }).push(c), false)
        }
    }
}

/// The components of `s` split at non escaped `sep`: an escaped separator is the separator
/// character itself, an escaped backslash stays two backslashes, and a backslash before any
/// other character stays.
pub open spec fn spec_split(s: Seq<char>, sep: char) -> Seq<Seq<char>> {
    let (done, comp, _) = split_state(s, sep);
    done.push(comp)
}

/// Splits characters at non escaped `separator`.
fn split_chars(line: &Vec<char>, separator: char) -> (r: Vec<Vec<char>>)
    ensures
        r@.len() == spec_split(line@, separator).len(),
        forall|i: int| 0 <= i < r@.len() ==> (#[trigger] r@[i])@ == spec_split(line@, separator)[i],
{
    let mut done: Vec<Vec<char>> = Vec::new();
    let mut comp: Vec<char> = Vec::new();
    let mut esc = false;
    let mut i: usize = 0;
    while i < line.len()
        invariant
            i <= line@.len(),
            done@.len() == split_state(line@.take(i as int), separator).0.len(),
            forall|k: int| 0 <= k < done@.len() ==> (#[trigger] done@[k])@ == split_state(line@.take(i as int), separator).0[k],
            comp@ == split_state(line@.take(i as int), separator).1,
            esc == split_state(line@.take(i as int), separator).2,
        decreases line@.len() - i,
    {
        proof {
            assert(line@.take(i + 1).drop_last() == line@.take(i as int));
        }
        let c = line[i];
        let ghost db = done@;
        if c == separator {
            if esc {
                comp.push(c);
            } else {
                let mut finished: Vec<char> = Vec::new();
                std::mem::swap(&mut finished, &mut comp);
                done.push(finished);
                proof {
                    assert forall|k: int| 0 <= k < done@.len() implies (#[trigger] done@[k])@ == split_state(line@.take(i + 1), separator).0[k] by {
                        if k < db.len() {
                            assert(done@[k] == db[k]);
                        }
                    }
                }
            }
            esc = false;
        } else if c == '\\' {
            if esc {
                comp.push(c);
                comp.push(c);
                esc = false;
            } else {
                esc = true;
            }
        } else {
            if esc {
                comp.push('\\');
            }
            comp.push(c);
            esc = false;
        }
        i = i + 1;
    }
    assert(line@.take(i as int) == line@);
    let ghost db = done@;
    done.push(comp);
    proof {
        assert forall|k: int| 0 <= k < done@.len() implies (#[trigger] done@[k])@ == spec_split(line@, separator)[k] by {
            if k < db.len() {
                assert(done@[k] == db[k]);
            }
        }
    }
    done
}

/// Splits a line into components at non escaped `separator`. An escaped separator is the
/// separator character itself; a backslash not before the separator is kept.
///
/// With ':' as the separator, `a:b:c` gives `a`, `b`, `c`, and `a\:b:c` gives `a:b`, `c`.
pub fn split_by_non_escaped_separator(line: &str, separator: char) -> (r: Vec<String>)
    requires
        separator != '\\',
    ensures
        r@.len() == spec_split(line@, separator).len(),
        forall|i: int| 0 <= i < r@.len() ==> (#[trigger] r@[i])@ == spec_split(line@, separator)[i],
{
    let chars = str_to_chars(line);
    let parts = split_chars(&chars, separator);
    let mut r: Vec<String> = Vec::new();
    let mut i: usize = 0;
    while i < parts.len()
        invariant
            i <= parts@.len(),
            r@.len() == i,
            forall|k: int| 0 <= k < i ==> (#[trigger] r@[k])@ == parts@[k]@,
        decreases parts@.len() - i,
    {
        r.push(chars_to_string(&parts[i]));
        i = i + 1;
    }
    r
}

/// The state after reading `s` with its square brackets: the word without brackets, the
/// first and last positions of each compound in it, whether the last character was an
/// escaping backslash, the start of an open compound, and an error code (1: brackets do not
/// match, 2: empty compound, 0: none).
pub open spec fn bracket_state(s: Seq<char>) -> (Seq<char>, Seq<(int, int)>, bool, Option<int>, int)
    decreases s.len(),
{
    if s.len() == 0 {
        (Seq::empty(), Seq::empty(), false, None, 0)
    } else {
        let (st, pos, esc, start, err) = bracket_state(s.drop_last());
        let c = s.last();
        if err != 0 {
            (st, pos, esc, start, err)
        } else if c == '[' {
            if esc {
                (st.push(c), pos, false, start, 0)
            } else if start is Some {
                (st, pos, false, start, 1)
            } else {
                (st, pos, false, Some(st.len() as int), 0)
            }
        } else if c == ']' {
            if esc {
                (st.push(c), pos, false, start, 0)
            } else {
                match start {
                    Some(b) => if b == st.len() {
                        (st, pos, false, start, 2)
                    } else {
                        (st, pos.push((b, st.len() - 1)), false, None, 0)
                    },
                    None => (st, pos, false, start, 1),
                }
            }
        } else if c == '\\' {
            if esc {
                (st.push(c), pos, false, start, 0)
            } else {
                (st, pos, true, start, 0)
            }
        } else {
            ((if esc { st.push('\\') } else { st }).push(c), pos, false, start, 0)
        }
    }
}

/// The character counts of the parts of a word of `n` characters with compounds at `pos`:
/// the counts, the next compound, and whether the compounds were out of order.
pub open spec fn counts_state(n: int, pos: Seq<(int, int)>) -> (Seq<int>, int, bool)
    decreases n,
{
    if n <= 0 {
        (Seq::empty(), 0, false)
    } else {
        let (c, k, e) = counts_state(n - 1, pos);
        let i = n - 1;
        if e {
            (c, k, e)
        } else if 0 <= k < pos.len() {
            let (ps, pe) = pos[k];
            if pe < ps || i > pe {
                (c, k, true)
            } else if ps <= i && i <= pe {
                if i == pe {
                    (c.push(pe - ps + 1), k + 1, false)
                } else {
                    (c, k, false)
                }
            } else {
                (c.push(1), k, false)
            }
        } else {
            (c.push(1), k, false)
        }
    }
}

/// The error code of removing the square brackets of `s` (3 for compounds out of order), 0
/// when there is none.
pub open spec fn bracket_error(s: Seq<char>) -> int {
    let (st, pos, _, start, err) = bracket_state(s);
    if err != 0 {
        err
    } else if start is Some {
        1
    } else if counts_state(st.len() as int, pos).2 {
        3
    } else {
        0
    }
}

/// Once an error is met, reading more characters keeps it.
proof fn lemma_bracket_error_stays(s: Seq<char>, i: int)
    requires
        0 <= i <= s.len(),
        bracket_state(s.take(i)).4 != 0,
    ensures
        bracket_state(s).4 == bracket_state(s.take(i)).4,
    decreases s.len() - i,
{
    if i < s.len() {
        assert(s.take(i + 1).drop_last() == s.take(i));
        lemma_bracket_error_stays(s, i + 1);
    } else {
        assert(s.take(i) == s);
    }
}

/// The compounds `pos` of a word of `n` characters are in it, in order and apart from each
/// other.
pub open spec fn compounds_wf(pos: Seq<(int, int)>, n: int) -> bool {
    &&& forall|k: int| 0 <= k < pos.len() ==> 0 <= (#[trigger] pos[k]).0 <= pos[k].1 < n
    &&& forall|k: int, j: int| 0 <= k < j < pos.len() ==> (#[trigger] pos[k]).1 < (#[trigger] pos[j]).0
}

/// Reading a word without an error leaves its compounds in it, in order, and an open compound
/// after them.
proof fn lemma_bracket_state_wf(s: Seq<char>)
    requires
        bracket_state(s).4 == 0,
    ensures
        compounds_wf(bracket_state(s).1, bracket_state(s).0.len() as int),
        bracket_state(s).3 matches Some(b) ==> 0 <= b <= bracket_state(s).0.len() && (bracket_state(s).1.len() > 0
            ==> bracket_state(s).1.last().1 < b),
    decreases s.len(),
{
    if s.len() > 0 {
        let p = s.drop_last();
        if bracket_state(p).4 != 0 {
            assert(s.take(s.len() - 1) == p);
            lemma_bracket_error_stays(s, s.len() - 1);
        } else {
            lemma_bracket_state_wf(p);
            let (st, pos, esc, start, err) = bracket_state(p);
            let c = s.last();
            let (st2, pos2, esc2, start2, err2) = bracket_state(s);
            assert(st.len() <= st2.len());
            if pos2 == pos {
                assert forall|k: int| 0 <= k < pos2.len() implies 0 <= (#[trigger] pos2[k]).0 <= pos2[k].1 < st2.len() by {
                    assert(pos[k].1 < st.len());
                }
            } else {
                let b = start->0;
                assert(c == ']' && !esc && start is Some && b != st.len());
                assert(pos2 == pos.push((b, st.len() - 1)));
                assert(st2 == st);
                assert forall|k: int| 0 <= k < pos2.len() implies 0 <= (#[trigger] pos2[k]).0 <= pos2[k].1 < st2.len() by {
                    if k < pos.len() {
                        assert(pos2[k] == pos[k]);
                    }
                }
                assert forall|k: int, j: int| 0 <= k < j < pos2.len() implies (#[trigger] pos2[k]).1 < (#[trigger] pos2[j]).0 by {
                    assert(pos2[k] == pos[k]);
                    if j == pos.len() {
                        assert(pos.len() > 0);
                        if k < pos.len() - 1 {
                            assert(pos[k].1 < pos[pos.len() - 1].0);
                        }
                    } else {
                        assert(pos2[j] == pos[j]);
                    }
                }
            }
        }
    }
}

/// The sum of `s`.
pub open spec fn sum_of(s: Seq<int>) -> int
    decreases s.len(),
{
    if s.len() == 0 {
        0
    } else {
        sum_of(s.drop_last()) + s.last()
    }
}

/// Counting the parts of the first `n` characters of a word whose compounds are in it, in
/// order, finds them in order, and the parts counted, with the characters of a compound begun,
/// are the `n` characters.
proof fn lemma_counts_state_sum(n: int, pos: Seq<(int, int)>, l: int)
    requires
        compounds_wf(pos, l),
        0 <= n <= l,
    ensures
        ({
            let (c, k, e) = counts_state(n, pos);
            &&& !e
            &&& 0 <= k <= pos.len()
            &&& forall|j: int| 0 <= j < k ==> (#[trigger] pos[j]).1 < n
            &&& k < pos.len() ==> pos[k].1 >= n
            &&& sum_of(c) + (if k < pos.len() && pos[k].0 < n { n - pos[k].0 } else { 0 }) == n
        }),
    decreases n,
{
    if n > 0 {
        lemma_counts_state_sum(n - 1, pos, l);
        let (c, k, e) = counts_state(n - 1, pos);
        let i = n - 1;
        if k < pos.len() {
            let (ps, pe) = pos[k];
            assert(0 <= ps <= pe < l);
            if ps <= i && i <= pe {
                if i == pe {
                    assert(c.push(pe - ps + 1).drop_last() == c);
                    if k + 1 < pos.len() {
                        assert(pos[k].1 < pos[k + 1].0);
                    }
                }
            } else {
                assert(c.push(1).drop_last() == c);
            }
        } else {
            assert(c.push(1).drop_last() == c);
        }
    }
}

/// Without a bracket error, the parts of a word are all its characters.
proof fn lemma_parts_cover_word(view: Seq<char>)
    requires
        bracket_error(view) == 0,
    ensures
        sum_of(parts_of(view)) == bracket_state(view).0.len(),
{
    let (st, pos, esc, start, err) = bracket_state(view);
    lemma_bracket_state_wf(view);
    lemma_counts_state_sum(st.len() as int, pos, st.len() as int);
    let (c, k, e) = counts_state(st.len() as int, pos);
    if k < pos.len() {
        assert(pos[k].1 < st.len());
    }
}

/// The word characters of spells are the sum of their counts.
proof fn lemma_view_count_sum(els: Seq<VocabularySpellElement>, parts: Seq<int>)
    requires
        els.len() == parts.len(),
        forall|k: int| 0 <= k < els.len() ==> (#[trigger] els[k]).spec_view_count() == parts[k],
    ensures
        crate::vocabulary::view_count_of(els) == sum_of(parts),
    decreases els.len(),
{
    if els.len() > 0 {
        lemma_view_count_sum(els.drop_last(), parts.drop_last());
    }
}

/// Once compounds are found out of order, counting more characters keeps it so.
proof fn lemma_counts_error_stays(n: int, m: int, pos: Seq<(int, int)>)
    requires
        0 <= n <= m,
        counts_state(n, pos).2,
    ensures
        counts_state(m, pos).2,
    decreases m - n,
{
    if n < m {
        lemma_counts_error_stays(n, m - 1, pos);
    }
}

/// Removes the square brackets of a word and returns it with the number of characters of
/// each of its parts: a compound enclosed in brackets is one part, any other character is a
/// part. Escaped brackets and backslashes are literal characters; other backslashes are
/// kept. Brackets which are nested or do not match are refused, and so is an empty compound.
pub fn remove_square_parentheses(s: &str) -> (r: Result<(String, Vec<NonZeroUsize>), VocabularyParseError>)
    ensures
        (bracket_error(s@) == 0) == (r is Ok),
        r matches Ok((st, counts)) ==> {
            &&& st@ == bracket_state(s@).0
            &&& counts@.len() == counts_state(st@.len() as int, bracket_state(s@).1).0.len()
            &&& forall|i: int| 0 <= i < counts@.len() ==> (#[trigger] counts@[i]).spec_get() == counts_state(st@.len() as int, bracket_state(s@).1).0[i]
        },
        bracket_error(s@) == 1 ==> r is Err && r->Err_0.spec_kind() == VocabularyParseErrorKind::CompoundSymbolMisMatch,
        bracket_error(s@) == 2 ==> r is Err && r->Err_0.spec_kind() == VocabularyParseErrorKind::EmptyCompound,
        bracket_error(s@) == 3 ==> r is Err && r->Err_0.spec_kind() is Internal,
{
    let chars = str_to_chars(s);
    let ghost sq = chars@;
    let mut st: Vec<char> = Vec::new();
    let mut pos: Vec<(usize, usize)> = Vec::new();
    let mut esc = false;
    let mut start: Option<usize> = None;
    let mut i: usize = 0;
    while i < chars.len()
        invariant
            sq == chars@,
            sq == s@,
            i <= sq.len(),
            bracket_state(sq.take(i as int)).4 == 0,
            st@ == bracket_state(sq.take(i as int)).0,
            pos@.len() == bracket_state(sq.take(i as int)).1.len(),
            forall|k: int| 0 <= k < pos@.len() ==> (#[trigger] pos@[k]).0 as int == bracket_state(sq.take(i as int)).1[k].0
                && pos@[k].1 as int == bracket_state(sq.take(i as int)).1[k].1,
            esc == bracket_state(sq.take(i as int)).2,
            match start {
                Some(b) => bracket_state(sq.take(i as int)).3 == Some(b as int),
                None => bracket_state(sq.take(i as int)).3 is None,
            },
        decreases sq.len() - i,
    {
        proof {
            assert(sq.take(i + 1).drop_last() == sq.take(i as int));
        }
        let c = chars[i];
        let ghost pb = pos@;
        if c == '[' {
            if esc {
                st.push(c);
            } else {
                if start.is_some() {
                    proof {
                        lemma_bracket_error_stays(sq, i + 1);
                    }
                    return Err(VocabularyParseError::new(VocabularyParseErrorKind::CompoundSymbolMisMatch));
                }
                start = Some(st.len());
            }
            esc = false;
        } else if c == ']' {
            if esc {
                st.push(c);
            } else {
                match start {
                    Some(b) => {
                        if b == st.len() {
                            proof {
                                lemma_bracket_error_stays(sq, i + 1);
                            }
                            return Err(VocabularyParseError::new(VocabularyParseErrorKind::EmptyCompound));
                        }
                        pos.push((b, st.len() - 1));
                        proof {
                            assert forall|k: int| 0 <= k < pos@.len() implies (#[trigger] pos@[k]).0 as int == bracket_state(sq.take(i + 1)).1[k].0
                                && pos@[k].1 as int == bracket_state(sq.take(i + 1)).1[k].1 by {
                                if k < pb.len() {
                                    assert(pos@[k] == pb[k]);
                                }
                            }
                        }
                    },
                    None => {
                        proof {
                            lemma_bracket_error_stays(sq, i + 1);
                        }
                        return Err(VocabularyParseError::new(VocabularyParseErrorKind::CompoundSymbolMisMatch));
                    },
                }
                start = None;
            }
            esc = false;
        } else if c == '\\' {
            if esc {
                st.push(c);
                esc = false;
            } else {
                esc = true;
            }
        } else {
            if esc {
                st.push('\\');
            }
            st.push(c);
            esc = false;
        }
        i = i + 1;
    }
    assert(sq.take(i as int) == sq);
    if start.is_some() {
        return Err(VocabularyParseError::new(VocabularyParseErrorKind::CompoundSymbolMisMatch));
    }
    let ghost spos = bracket_state(sq).1;
    let mut counts: Vec<NonZeroUsize> = Vec::new();
    let mut k: usize = 0;
    let mut j: usize = 0;
    while j < st.len()
        invariant
            st@ == bracket_state(sq).0,
            spos == bracket_state(sq).1,
            bracket_state(sq).4 == 0,
            bracket_state(sq).3 is None,
            sq == s@,
            pos@.len() == spos.len(),
            forall|x: int| 0 <= x < pos@.len() ==> (#[trigger] pos@[x]).0 as int == spos[x].0 && pos@[x].1 as int == spos[x].1,
            j <= st@.len(),
            !counts_state(j as int, spos).2,
            k as int == counts_state(j as int, spos).1,
            counts@.len() == counts_state(j as int, spos).0.len(),
            forall|x: int| 0 <= x < counts@.len() ==> (#[trigger] counts@[x]).spec_get() == counts_state(j as int, spos).0[x],
        decreases st@.len() - j,
    {
        let ghost cb = counts@;
        if k < pos.len() {
            let (ps, pe) = pos[k];
            if pe < ps || j > pe {
                proof {
                    lemma_counts_error_stays(j + 1, st@.len() as int, spos);
                }
                return Err(VocabularyParseError::new(VocabularyParseErrorKind::Internal(String::new())));
            }
            if ps <= j && j <= pe {
                if j == pe {
                    match NonZeroUsize::new(pe - ps + 1) {
                        Some(n) => counts.push(n),
                        None => {},
                    }
                    k = k + 1;
                }
            } else {
                match NonZeroUsize::new(1) {
                    Some(n) => counts.push(n),
                    None => {},
                }
            }
        } else {
            match NonZeroUsize::new(1) {
                Some(n) => counts.push(n),
                None => {},
            }
        }
        proof {
            assert forall|x: int| 0 <= x < counts@.len() implies (#[trigger] counts@[x]).spec_get() == counts_state(j + 1, spos).0[x] by {
                if x < cb.len() {
                    assert(counts@[x] == cb[x]);
                }
            }
        }
        j = j + 1;
    }
    Ok((chars_to_string(&st), counts))
}

/// The state after reading `s`, turning two backslashes into one: the characters so far and
/// whether a backslash is pending.
pub open spec fn unescape_state(s: Seq<char>) -> (Seq<char>, bool)
    decreases s.len(),
{
    if s.len() == 0 {
        (Seq::empty(), false)
    } else {
        let (t, esc) = unescape_state(s.drop_last());
        let c = s.last();
        if c == '\\' {
            if esc {
                (t.push(c), false)
            } else {
                (t, true)
            }
        } else {
            ((if esc { t.push('\\') } else { t }).push(c), false)
        }
    }
}

/// `s` with each two consecutive backslashes turned into one.
pub open spec fn spec_unescape(s: Seq<char>) -> Seq<char> {
    let (t, esc) = unescape_state(s);
    if esc {
        t.push('\\')
    } else {
        t
    }
}

/// Turns each two consecutive backslashes into one.
pub fn convert_two_backslash_to_single(s: &str) -> (r: String)
    ensures
        r@ == spec_unescape(s@),
{
    let chars = str_to_chars(s);
    let mut t: Vec<char> = Vec::new();
    let mut esc = false;
    let mut i: usize = 0;
    while i < chars.len()
        invariant
            i <= chars@.len(),
            t@ == unescape_state(chars@.take(i as int)).0,
            esc == unescape_state(chars@.take(i as int)).1,
        decreases chars@.len() - i,
    {
        proof {
            assert(chars@.take(i + 1).drop_last() == chars@.take(i as int));
        }
        let c = chars[i];
        if c == '\\' {
            if esc {
                t.push(c);
                esc = false;
            } else {
                esc = true;
            }
        } else {
            if esc {
                t.push('\\');
            }
            t.push(c);
            esc = false;
        }
        i = i + 1;
    }
    assert(chars@.take(i as int) == chars@);
    if esc {
        t.push('\\');
    }
    chars_to_string(&t)
}

/// The number of newlines of `s` and the number of characters after the last one.
pub open spec fn lines_state(s: Seq<char>) -> (int, int)
    decreases s.len(),
{
    if s.len() == 0 {
        (0, 0)
    } else {
        let (nl, tail) = lines_state(s.drop_last());
        if s.last() == '\n' {
            (nl + 1, 0)
        } else {
            (nl, tail + 1)
        }
    }
}

/// The number of lines of `s`: one per newline, and one more when characters follow the last
/// newline.
pub open spec fn line_count(s: Seq<char>) -> int {
    let (nl, tail) = lines_state(s);
    nl + if tail > 0 { 1int } else { 0 }
}

/// Returns whether the characters hold more than one line.
fn has_multiple_lines(chars: &Vec<char>) -> (r: bool)
    ensures
        r == (line_count(chars@) > 1),
{
    let mut nl: usize = 0;
    let mut tail: usize = 0;
    let mut i: usize = 0;
    while i < chars.len()
        invariant
            i <= chars@.len(),
            nl as int == lines_state(chars@.take(i as int)).0,
            tail as int == lines_state(chars@.take(i as int)).1,
            nl <= i,
            tail <= i,
        decreases chars@.len() - i,
    {
        proof {
            assert(chars@.take(i + 1).drop_last() == chars@.take(i as int));
        }
        if chars[i] == '\n' {
            nl = nl + 1;
            tail = 0;
        } else {
            tail = tail + 1;
        }
        i = i + 1;
    }
    assert(chars@.take(i as int) == chars@);
    nl > 1 || (nl == 1 && tail > 0)
}

/// The readings of a line's reading component, with two backslashes turned into one.
pub open spec fn readings_of(spells: Seq<char>) -> Seq<Seq<char>> {
    spec_split(spells, ',').map_values(|r: Seq<char>| spec_unescape(r))
}

/// Returns the spell strings of the readings, or the error naming the first reading which
/// holds a character that cannot be used in a spell.
fn construct_spell_strings(strs: &Vec<String>) -> (r: Result<Vec<SpellString>, VocabularyParseError>)
    ensures
        r is Ok == forall|i: int| 0 <= i < strs@.len() ==> all_usable_in_spell(#[trigger] strs@[i]@),
        r matches Ok(v) ==> v@.len() == strs@.len() && forall|i: int| 0 <= i < v@.len() ==> (#[trigger] v@[i])@ == strs@[i]@,
        r is Err ==> r->Err_0.spec_kind() is InvalidSpellString && exists|i: int|
            0 <= i < strs@.len() && !all_usable_in_spell(strs@[i]@) && r->Err_0.spec_kind()->InvalidSpellString_0@ == strs@[i]@
                && forall|j: int| 0 <= j < i ==> all_usable_in_spell(#[trigger] strs@[j]@),
{
    let mut v: Vec<SpellString> = Vec::new();
    let mut i: usize = 0;
    while i < strs.len()
        invariant
            i <= strs@.len(),
            v@.len() == i,
            forall|k: int| 0 <= k < i ==> (#[trigger] v@[k])@ == strs@[k]@,
            forall|k: int| 0 <= k < i ==> all_usable_in_spell(#[trigger] strs@[k]@),
        decreases strs@.len() - i,
    {
        match SpellString::from_str(strs[i].as_str()) {
            Ok(s) => v.push(s),
            Err(_) => {
                let copy = chars_to_string(&str_to_chars(strs[i].as_str()));
                return Err(VocabularyParseError::new(VocabularyParseErrorKind::InvalidSpellString(copy)));
            },
        }
        i = i + 1;
    }
    Ok(v)
}

/// Parses a line `word:reading1,reading2,...,readingN` into a vocabulary entry.
///
/// - The word is left of the colon and its readings, separated by commas, right of it: one
///   reading for each character of the word, or for each group of characters enclosed in
///   square brackets and read together (熟字訓), such as `[明日]のジョー:あした,の,じ,ょ,ー`.
/// - The characters `:`, `[`, `]` and `,` can be escaped with a backslash; a backslash itself
///   is written as two.
/// - The line is refused when the input holds several lines, when it is not made of two
///   components, when brackets do not match or enclose nothing, when there are not as many
///   readings as parts of the word, and when a reading cannot be a spell.
pub fn parse_vocabulary_entry(line: &str) -> (r: Result<VocabularyEntry, VocabularyParseError>)
    ensures
        line_count(line@) > 1 ==> r is Err && r->Err_0.spec_kind() == VocabularyParseErrorKind::MultipleLines,
        line_count(line@) <= 1 && spec_split(line@, ':').len() != 2 ==> r is Err && r->Err_0.spec_kind()
            == VocabularyParseErrorKind::ComponentsCountMisMatch,
        line_count(line@) <= 1 && spec_split(line@, ':').len() == 2 && bracket_error(spec_split(line@, ':')[0]) == 1 ==> r is Err
            && r->Err_0.spec_kind() == VocabularyParseErrorKind::CompoundSymbolMisMatch,
        line_count(line@) <= 1 && spec_split(line@, ':').len() == 2 && bracket_error(spec_split(line@, ':')[0]) == 2 ==> r is Err
            && r->Err_0.spec_kind() == VocabularyParseErrorKind::EmptyCompound,
        line_count(line@) <= 1 && spec_split(line@, ':').len() == 2 && bracket_error(spec_split(line@, ':')[0]) == 3 ==> r is Err
            && r->Err_0.spec_kind() is Internal,
        line_count(line@) <= 1 && spec_split(line@, ':').len() == 2 && bracket_error(spec_split(line@, ':')[0]) == 0
            && readings_of(spec_split(line@, ':')[1]).len() != parts_of(spec_split(line@, ':')[0]).len() ==> r is Err
            && r->Err_0.spec_kind() == VocabularyParseErrorKind::ViewAndSpellsCountMisMatch,
        line_count(line@) <= 1 && spec_split(line@, ':').len() == 2 && bracket_error(spec_split(line@, ':')[0]) == 0
            && readings_of(spec_split(line@, ':')[1]).len() == parts_of(spec_split(line@, ':')[0]).len() ==> {
            let readings = readings_of(spec_split(line@, ':')[1]);
            &&& (exists|i: int| 0 <= i < readings.len() && !all_usable_in_spell(#[trigger] readings[i])) ==> r is Err
                && r->Err_0.spec_kind() is InvalidSpellString
            &&& (r is Err && r->Err_0.spec_kind() is InvalidSpellString) ==> exists|i: int|
                0 <= i < readings.len() && !all_usable_in_spell(readings[i]) && r->Err_0.spec_kind()->InvalidSpellString_0@ == readings[i]
                    && forall|j: int| 0 <= j < i ==> all_usable_in_spell(#[trigger] readings[j])
            &&& (forall|i: int| 0 <= i < readings.len() ==> all_usable_in_spell(#[trigger] readings[i])) ==> r is Ok
        },
        r matches Ok(e) ==> {
            let view = spec_split(line@, ':')[0];
            let readings = readings_of(spec_split(line@, ':')[1]);
            let parts = parts_of(view);
            &&& line_count(line@) <= 1
            &&& spec_split(line@, ':').len() == 2
            &&& bracket_error(view) == 0
            &&& e.spec_view() == bracket_state(view).0
            &&& e.spec_spells().len() == readings.len()
            &&& readings.len() == parts.len()
            &&& forall|i: int| 0 <= i < readings.len() ==> (#[trigger] e.spec_spells()[i]).spec_spell() == readings[i]
                && e.spec_spells()[i].spec_view_count() == parts[i]
                && (e.spec_spells()[i] is Normal <==> parts[i] == 1)
        },
{
    let chars = str_to_chars(line);
    if has_multiple_lines(&chars) {
        return Err(VocabularyParseError::new(VocabularyParseErrorKind::MultipleLines));
    }
    let elements = split_chars(&chars, ':');
    if elements.len() != 2 {
        return Err(VocabularyParseError::new(VocabularyParseErrorKind::ComponentsCountMisMatch));
    }
    let view_str = chars_to_string(&elements[0]);
    let spells_str = chars_to_string(&elements[1]);
    let (view, counts) = match remove_square_parentheses(view_str.as_str()) {
        Ok(p) => p,
        Err(e) => {
            return Err(e);
        },
    };
    let raw = split_by_non_escaped_separator(spells_str.as_str(), ',');
    let mut spells: Vec<String> = Vec::new();
    let mut i: usize = 0;
    while i < raw.len()
        invariant
            i <= raw@.len(),
            raw@.len() == spec_split(elements@[1]@, ',').len(),
            forall|k: int| 0 <= k < raw@.len() ==> (#[trigger] raw@[k])@ == spec_split(elements@[1]@, ',')[k],
            spells@.len() == i,
            forall|k: int| 0 <= k < i ==> (#[trigger] spells@[k])@ == readings_of(elements@[1]@)[k],
        decreases raw@.len() - i,
    {
        spells.push(convert_two_backslash_to_single(raw[i].as_str()));
        i = i + 1;
    }
    if spells.len() != counts.len() {
        return Err(VocabularyParseError::new(VocabularyParseErrorKind::ViewAndSpellsCountMisMatch));
    }
    let ghost readings = readings_of(elements@[1]@);
    assert forall|i: int| 0 <= i < spells@.len() implies (#[trigger] spells@[i])@ == readings[i] by {}
    let spell_strings = match construct_spell_strings(&spells) {
        Ok(v) => v,
        Err(e) => {
            proof {
                let x = choose|i: int|
                    0 <= i < spells@.len() && !all_usable_in_spell(spells@[i]@) && e.spec_kind()->InvalidSpellString_0@ == spells@[i]@
                        && forall|j: int| 0 <= j < i ==> all_usable_in_spell(#[trigger] spells@[j]@);
                assert(spells@[x]@ == readings[x]);
                assert forall|j: int| 0 <= j < x implies all_usable_in_spell(#[trigger] readings[j]) by {
                    assert(spells@[j]@ == readings[j]);
                }
                let w = choose|i: int| 0 <= i < spells@.len() && !all_usable_in_spell(#[trigger] spells@[i]@);
                assert(spells@[w]@ == readings[w]);
                assert(!all_usable_in_spell(readings[w]));
                assert(!(forall|i: int| 0 <= i < readings.len() ==> all_usable_in_spell(#[trigger] readings[i])));
            }
            return Err(e);
        },
    };
    proof {
        assert forall|i: int| 0 <= i < readings.len() implies all_usable_in_spell(#[trigger] readings[i]) by {
            assert(spells@[i]@ == readings[i]);
            assert(all_usable_in_spell(spells@[i]@));
        }
    }
    let mut elements_v: Vec<VocabularySpellElement> = Vec::new();
    let mut rest = spell_strings;
    let mut j: usize = 0;
    let ghost all = rest@;
    while j < counts.len()
        invariant
            rest@.len() + j == counts@.len(),
            all.len() == counts@.len(),
            rest@ == all.subrange(j as int, all.len() as int),
            forall|k: int| 0 <= k < all.len() ==> (#[trigger] all[k])@ == readings_of(elements@[1]@)[k],
            elements_v@.len() == j,
            forall|k: int| 0 <= k < j ==> (#[trigger] elements_v@[k]).spec_spell() == readings_of(elements@[1]@)[k]
                && elements_v@[k].spec_view_count() == counts@[k].spec_get()
                && (elements_v@[k] is Normal <==> counts@[k].spec_get() == 1),
        decreases counts@.len() - j,
    {
        let s = rest.remove(0);
        proof {
            assert(s == all[j as int]);
            assert(rest@ == all.subrange(j + 1, all.len() as int));
        }
        let n = counts[j];
        if n.get() == 1 {
            elements_v.push(VocabularySpellElement::Normal(s));
        } else {
            elements_v.push(VocabularySpellElement::Compound((s, n)));
        }
        j = j + 1;
    }
    proof {
        lemma_parts_cover_word(elements@[0]@);
        lemma_view_count_sum(elements_v@, parts_of(elements@[0]@));
    }
    match VocabularyEntry::new(view, elements_v) {
        Some(e) => Ok(e),
        None => Err(VocabularyParseError::new(VocabularyParseErrorKind::Internal(String::new()))),
    }
}

/// The character counts of the parts of a word written with square brackets.
pub open spec fn parts_of(view: Seq<char>) -> Seq<int> {
    counts_state(bracket_state(view).0.len() as int, bracket_state(view).1).0
}

} // verus!
