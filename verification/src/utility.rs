//! Character classes and small arithmetic helpers shared by the library.
use vstd::prelude::*;

verus! {

/// A displayable ASCII character: `U+0020` ..= `U+007E`.
pub open spec fn spec_is_displayable_ascii(c: char) -> bool {
    ' ' <= c <= '~'
}

/// A hiragana usable in spells: `U+3041` ..= `U+308F` or `U+3092` ..= `U+3094`.
pub open spec fn spec_is_hiragana(c: char) -> bool {
    ('\u{3041}' <= c <= '\u{308f}') || ('\u{3092}' <= c <= '\u{3094}')
}

/// A Japanese (full width) symbol usable in spells.
pub open spec fn spec_is_japanese_symbol(c: char) -> bool {
    ||| c == '\u{2019}'
    ||| c == '\u{201d}'
    ||| ('\u{3000}' <= c <= '\u{3002}')
    ||| ('\u{300c}' <= c <= '\u{300d}')
    ||| c == '\u{301c}'
    ||| ('\u{30fb}' <= c <= '\u{30fc}')
    ||| c == '\u{ff01}'
    ||| ('\u{ff03}' <= c <= '\u{ff06}')
    ||| ('\u{ff08}' <= c <= '\u{ff0b}')
    ||| c == '\u{ff0f}'
    ||| ('\u{ff1a}' <= c <= '\u{ff20}')
    ||| ('\u{ff3e}' <= c <= '\u{ff40}')
    ||| ('\u{ff5b}' <= c <= '\u{ff5d}')
    ||| c == '\u{ffe5}'
}

/// Returns whether `c` is a displayable ASCII character (`U+0020` ..= `U+007E`).
pub fn is_displayable_ascii(c: char) -> (r: bool)
    ensures
        r == spec_is_displayable_ascii(c),
{
    ' ' <= c && c <= '~'
}

/// Returns whether `c` is a hiragana which can be used in a spell.
pub fn is_hiragana(c: char) -> (r: bool)
    ensures
        r == spec_is_hiragana(c),
{
    ('\u{3041}' <= c && c <= '\u{308f}') || ('\u{3092}' <= c && c <= '\u{3094}')
}

/// Returns whether `c` is a Japanese symbol which can be used in a spell.
pub fn is_japanese_symbol(c: char) -> (r: bool)
    ensures
        r == spec_is_japanese_symbol(c),
{
    c == '\u{2019}' || c == '\u{201d}' || ('\u{3000}' <= c && c <= '\u{3002}') || ('\u{300c}'
        <= c && c <= '\u{300d}') || c == '\u{301c}' || ('\u{30fb}' <= c && c <= '\u{30fc}') || c
        == '\u{ff01}' || ('\u{ff03}' <= c && c <= '\u{ff06}') || ('\u{ff08}' <= c && c
        <= '\u{ff0b}') || c == '\u{ff0f}' || ('\u{ff1a}' <= c && c <= '\u{ff20}') || ('\u{ff3e}'
        <= c && c <= '\u{ff40}') || ('\u{ff5b}' <= c && c <= '\u{ff5d}') || c == '\u{ffe5}'
}

/// Key stroke counts inside a single chunk stay below `2^15`, so that products of two of them
/// fit in a `usize` on every platform.
pub open spec fn bounded(n: int) -> bool {
    0 <= n < 0x8000
}

/// `ceil(a / b)` over mathematical integers.
pub open spec fn spec_ceil_div(a: int, b: int) -> int {
    (a + (b - 1)) / b
}

/// Returns `ceil(a / b)`.
pub fn calc_ceil_div(a: usize, b: usize) -> (r: usize)
    requires
        b > 0,
        a + b - 1 <= usize::MAX,
    ensures
        r == spec_ceil_div(a as int, b as int),
{
    (a + (b - 1)) / b
}

/// Position conversion between two targets of different counts:
/// `ceil(from_delta * to_count / from_count)`.
pub open spec fn spec_convert_by_weighted_count(from_count: int, to_count: int, from_delta: int) -> int {
    spec_ceil_div(from_delta * to_count, from_count)
}

/// Converts a position delta in a target of `from_count` elements to the corresponding
/// position delta in a target of `to_count` elements.
pub fn convert_by_weighted_count(from_count: usize, to_count: usize, from_delta: usize) -> (r: usize)
    requires
        from_count > 0,
        from_delta * to_count + from_count - 1 <= usize::MAX,
    ensures
        r == spec_convert_by_weighted_count(from_count as int, to_count as int, from_delta as int),
{
    calc_ceil_div(from_delta * to_count, from_count)
}

} // verus!
