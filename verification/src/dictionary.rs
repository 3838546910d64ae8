//! The key strokes which type each chunk spell.
use vstd::prelude::*;

use crate::key_stroke::KeyStrokeString;
use crate::utility::{spec_is_hiragana, spec_is_japanese_symbol};

verus! {

/// Whether a list of key stroke alternatives is usable as candidates of a chunk: it is not
/// empty and each alternative has one to four key strokes.
pub open spec fn wf_key_stroke_list(l: Seq<KeyStrokeString>) -> bool {
    &&& l.len() > 0
    &&& forall|i: int| 0 <= i < l.len() ==> 0 < (#[trigger] l[i])@.len() <= 4
}

fn ks1(a: char) -> (r: KeyStrokeString)
    requires
        ' ' <= a <= '~',
    ensures
        r@ == seq![a],
{
    KeyStrokeString::single(a)
}

fn ks2(a: char, b: char) -> (r: KeyStrokeString)
    requires
        ' ' <= a <= '~',
        ' ' <= b <= '~',
    ensures
        r@ == seq![a, b],
{
    let r = KeyStrokeString::single(a).pushed(b);
    assert(r@ =~= seq![a, b]);
    r
}

fn ks3(a: char, b: char, c: char) -> (r: KeyStrokeString)
    requires
        ' ' <= a <= '~',
        ' ' <= b <= '~',
        ' ' <= c <= '~',
    ensures
        r@ == seq![a, b, c],
{
    let r = KeyStrokeString::single(a).pushed(b).pushed(c);
    assert(r@ =~= seq![a, b, c]);
    r
}

fn ks4(a: char, b: char, c: char, d: char) -> (r: KeyStrokeString)
    requires
        ' ' <= a <= '~',
        ' ' <= b <= '~',
        ' ' <= c <= '~',
        ' ' <= d <= '~',
    ensures
        r@ == seq![a, b, c, d],
{
    let r = KeyStrokeString::single(a).pushed(b).pushed(c).pushed(d);
    assert(r@ =~= seq![a, b, c, d]);
    r
}

fn l1(a: KeyStrokeString) -> (r: Vec<KeyStrokeString>)
    ensures
        r@ == seq![a],
{
    let mut v: Vec<KeyStrokeString> = Vec::new();
    v.push(a);
    assert(v@ =~= seq![a]);
    v
}

fn l2(a: KeyStrokeString, b: KeyStrokeString) -> (r: Vec<KeyStrokeString>)
    ensures
        r@ == seq![a, b],
{
    let mut v: Vec<KeyStrokeString> = Vec::new();
    v.push(a);
    v.push(b);
    assert(v@ =~= seq![a, b]);
    v
}

fn l3(a: KeyStrokeString, b: KeyStrokeString, c: KeyStrokeString) -> (r: Vec<KeyStrokeString>)
    ensures
        r@ == seq![a, b, c],
{
    let mut v: Vec<KeyStrokeString> = Vec::new();
    v.push(a);
    v.push(b);
    v.push(c);
    assert(v@ =~= seq![a, b, c]);
    v
}

/// The characters of each key stroke string of `l`, in order.
pub open spec fn key_stroke_views(l: Seq<KeyStrokeString>) -> Seq<Seq<char>> {
    Seq::new(l.len(), |i: int| l[i]@)
}

/// The key stroke alternatives of the single character spell `c` in the table that
/// `single_char_key_strokes_0` holds; empty when it holds none.
pub open spec fn single_char_table_0(c: char) -> Seq<Seq<char>> {
    if c == '\u{3042}' {
        seq![seq!['a']]
    } else if c == '\u{3044}' {
        seq![seq!['i'], seq!['y', 'i']]
    } else if c == '\u{3046}' {
        seq![seq!['u'], seq!['w', 'u'], seq!['w', 'h', 'u']]
    } else if c == '\u{3048}' {
        seq![seq!['e']]
    } else if c == '\u{304a}' {
        seq![seq!['o']]
    } else if c == '\u{304b}' {
        seq![seq!['k', 'a'], seq!['c', 'a']]
    } else if c == '\u{304d}' {
        seq![seq!['k', 'i']]
    } else if c == '\u{304f}' {
        seq![seq!['k', 'u'], seq!['c', 'u'], seq!['q', 'u']]
    } else if c == '\u{3051}' {
        seq![seq!['k', 'e']]
    } else if c == '\u{3053}' {
        seq![seq!['k', 'o'], seq!['c', 'o']]
    } else if c == '\u{3055}' {
        seq![seq!['s', 'a']]
    } else if c == '\u{3057}' {
        seq![seq!['s', 'i'], seq!['c', 'i'], seq!['s', 'h', 'i']]
    } else if c == '\u{3059}' {
        seq![seq!['s', 'u']]
    } else if c == '\u{305b}' {
        seq![seq!['s', 'e'], seq!['c', 'e']]
    } else if c == '\u{305d}' {
        seq![seq!['s', 'o']]
    } else if c == '\u{305f}' {
        seq![seq!['t', 'a']]
    } else if c == '\u{3061}' {
        seq![seq!['t', 'i'], seq!['c', 'h', 'i']]
    } else if c == '\u{3064}' {
        seq![seq!['t', 'u'], seq!['t', 's', 'u']]
    } else if c == '\u{3066}' {
        seq![seq!['t', 'e']]
    } else if c == '\u{3068}' {
        seq![seq!['t', 'o']]
    } else {
        Seq::empty()
    }
}

/// The key stroke alternatives of the single character spell `c` in the table that
/// `single_char_key_strokes_1` holds; empty when it holds none.
pub open spec fn single_char_table_1(c: char) -> Seq<Seq<char>> {
    if c == '\u{306a}' {
        seq![seq!['n', 'a']]
    } else if c == '\u{306b}' {
        seq![seq!['n', 'i']]
    } else if c == '\u{306c}' {
        seq![seq!['n', 'u']]
    } else if c == '\u{306d}' {
        seq![seq!['n', 'e']]
    } else if c == '\u{306e}' {
        seq![seq!['n', 'o']]
    } else if c == '\u{306f}' {
        seq![seq!['h', 'a']]
    } else if c == '\u{3072}' {
        seq![seq!['h', 'i']]
    } else if c == '\u{3075}' {
        seq![seq!['h', 'u'], seq!['f', 'u']]
    } else if c == '\u{3078}' {
        seq![seq!['h', 'e']]
    } else if c == '\u{307b}' {
        seq![seq!['h', 'o']]
    } else if c == '\u{307e}' {
        seq![seq!['m', 'a']]
    } else if c == '\u{307f}' {
        seq![seq!['m', 'i']]
    } else if c == '\u{3080}' {
        seq![seq!['m', 'u']]
    } else if c == '\u{3081}' {
        seq![seq!['m', 'e']]
    } else if c == '\u{3082}' {
        seq![seq!['m', 'o']]
    } else if c == '\u{3084}' {
        seq![seq!['y', 'a']]
    } else if c == '\u{3086}' {
        seq![seq!['y', 'u']]
    } else if c == '\u{3088}' {
        seq![seq!['y', 'o']]
    } else if c == '\u{3089}' {
        seq![seq!['r', 'a']]
    } else if c == '\u{308a}' {
        seq![seq!['r', 'i']]
    } else {
        Seq::empty()
    }
}

/// The key stroke alternatives of the single character spell `c` in the table that
/// `single_char_key_strokes_2` holds; empty when it holds none.
pub open spec fn single_char_table_2(c: char) -> Seq<Seq<char>> {
    if c == '\u{308b}' {
        seq![seq!['r', 'u']]
    } else if c == '\u{308c}' {
        seq![seq!['r', 'e']]
    } else if c == '\u{308d}' {
        seq![seq!['r', 'o']]
    } else if c == '\u{308f}' {
        seq![seq!['w', 'a']]
    } else if c == '\u{3092}' {
        seq![seq!['w', 'o']]
    } else if c == '\u{3093}' {
        seq![seq!['n'], seq!['n', 'n'], seq!['x', 'n']]
    } else if c == '\u{304c}' {
        seq![seq!['g', 'a']]
    } else if c == '\u{304e}' {
        seq![seq!['g', 'i']]
    } else if c == '\u{3050}' {
        seq![seq!['g', 'u']]
    } else if c == '\u{3052}' {
        seq![seq!['g', 'e']]
    } else if c == '\u{3054}' {
        seq![seq!['g', 'o']]
    } else if c == '\u{3056}' {
        seq![seq!['z', 'a']]
    } else if c == '\u{3058}' {
        seq![seq!['z', 'i'], seq!['j', 'i']]
    } else if c == '\u{305a}' {
        seq![seq!['z', 'u']]
    } else if c == '\u{305c}' {
        seq![seq!['z', 'e']]
    } else if c == '\u{305e}' {
        seq![seq!['z', 'o']]
    } else if c == '\u{3060}' {
        seq![seq!['d', 'a']]
    } else if c == '\u{3062}' {
        seq![seq!['d', 'i']]
    } else if c == '\u{3065}' {
        seq![seq!['d', 'u']]
    } else if c == '\u{3067}' {
        seq![seq!['d', 'e']]
    } else {
        Seq::empty()
    }
}

/// The key stroke alternatives of the single character spell `c` in the table that
/// `single_char_key_strokes_3` holds; empty when it holds none.
pub open spec fn single_char_table_3(c: char) -> Seq<Seq<char>> {
    if c == '\u{3069}' {
        seq![seq!['d', 'o']]
    } else if c == '\u{3070}' {
        seq![seq!['b', 'a']]
    } else if c == '\u{3073}' {
        seq![seq!['b', 'i']]
    } else if c == '\u{3076}' {
        seq![seq!['b', 'u']]
    } else if c == '\u{3079}' {
        seq![seq!['b', 'e']]
    } else if c == '\u{307c}' {
        seq![seq!['b', 'o']]
    } else if c == '\u{3071}' {
        seq![seq!['p', 'a']]
    } else if c == '\u{3074}' {
        seq![seq!['p', 'i']]
    } else if c == '\u{3077}' {
        seq![seq!['p', 'u']]
    } else if c == '\u{307a}' {
        seq![seq!['p', 'e']]
    } else if c == '\u{307d}' {
        seq![seq!['p', 'o']]
    } else if c == '\u{3041}' {
        seq![seq!['l', 'a'], seq!['x', 'a']]
    } else if c == '\u{3043}' {
        seq![seq!['l', 'i'], seq!['x', 'i']]
    } else if c == '\u{3045}' {
        seq![seq!['l', 'u'], seq!['x', 'u']]
    } else if c == '\u{3047}' {
        seq![seq!['l', 'e'], seq!['x', 'e']]
    } else if c == '\u{3049}' {
        seq![seq!['l', 'o'], seq!['x', 'o']]
    } else if c == '\u{3083}' {
        seq![seq!['l', 'y', 'a'], seq!['x', 'y', 'a']]
    } else if c == '\u{3085}' {
        seq![seq!['l', 'y', 'u'], seq!['x', 'y', 'u']]
    } else if c == '\u{3087}' {
        seq![seq!['l', 'y', 'o'], seq!['x', 'y', 'o']]
    } else if c == '\u{3063}' {
        seq![seq!['l', 't', 'u'], seq!['x', 't', 'u'], seq!['l', 't', 's', 'u']]
    } else {
        Seq::empty()
    }
}

/// The key stroke alternatives of the single character spell `c` in the table that
/// `single_char_key_strokes_4` holds; empty when it holds none.
pub open spec fn single_char_table_4(c: char) -> Seq<Seq<char>> {
    if c == '\u{308e}' {
        seq![seq!['l', 'w', 'a'], seq!['x', 'w', 'a']]
    } else if c == '\u{3094}' {
        seq![seq!['v', 'u']]
    } else {
        Seq::empty()
    }
}

/// The key stroke alternatives of the single character spell `c` in the table that
/// `single_char_key_strokes_5` holds; empty when it holds none.
pub open spec fn single_char_table_5(c: char) -> Seq<Seq<char>> {
    if c == '\u{2019}' {
        seq![seq!['\'']]
    } else if c == '\u{201d}' {
        seq![seq!['"']]
    } else if c == '\u{3000}' {
        seq![seq![' ']]
    } else if c == '\u{3001}' {
        seq![seq![',']]
    } else if c == '\u{3002}' {
        seq![seq!['.']]
    } else if c == '\u{300c}' {
        seq![seq!['[']]
    } else if c == '\u{300d}' {
        seq![seq![']']]
    } else if c == '\u{301c}' {
        seq![seq!['~']]
    } else if c == '\u{30fb}' {
        seq![seq!['/']]
    } else if c == '\u{30fc}' {
        seq![seq!['-']]
    } else if c == '\u{ff01}' {
        seq![seq!['!']]
    } else if c == '\u{ff03}' {
        seq![seq!['#']]
    } else if c == '\u{ff04}' {
        seq![seq!['$']]
    } else if c == '\u{ff05}' {
        seq![seq!['%']]
    } else if c == '\u{ff06}' {
        seq![seq!['&']]
    } else if c == '\u{ff08}' {
        seq![seq!['(']]
    } else if c == '\u{ff09}' {
        seq![seq![')']]
    } else {
        Seq::empty()
    }
}

/// The key stroke alternatives of the single character spell `c` in the table that
/// `single_char_key_strokes_6` holds; empty when it holds none.
pub open spec fn single_char_table_6(c: char) -> Seq<Seq<char>> {
    if c == '\u{ff0a}' {
        seq![seq!['*']]
    } else if c == '\u{ff0b}' {
        seq![seq!['+']]
    } else if c == '\u{ff0f}' {
        seq![seq!['/']]
    } else if c == '\u{ff1a}' {
        seq![seq![':']]
    } else if c == '\u{ff1b}' {
        seq![seq![';']]
    } else if c == '\u{ff1c}' {
        seq![seq!['<']]
    } else if c == '\u{ff1d}' {
        seq![seq!['=']]
    } else if c == '\u{ff1e}' {
        seq![seq!['>']]
    } else if c == '\u{ff1f}' {
        seq![seq!['?']]
    } else if c == '\u{ff20}' {
        seq![seq!['@']]
    } else if c == '\u{ff3e}' {
        seq![seq!['^']]
    } else if c == '\u{ff3f}' {
        seq![seq!['_']]
    } else if c == '\u{ff40}' {
        seq![seq!['`']]
    } else if c == '\u{ff5b}' {
        seq![seq!['{']]
    } else if c == '\u{ff5c}' {
        seq![seq!['|']]
    } else if c == '\u{ff5d}' {
        seq![seq!['}']]
    } else if c == '\u{ffe5}' {
        seq![seq!['\\']]
    } else {
        Seq::empty()
    }
}

/// The key stroke alternatives of the two character spell `c1 c2` in the table that
/// `double_char_key_strokes_0` holds; empty when it holds none.
pub open spec fn double_char_table_0(c1: char, c2: char) -> Seq<Seq<char>> {
    if c1 == '\u{304d}' && c2 == '\u{3083}' {
        seq![seq!['k', 'y', 'a']]
    } else if c1 == '\u{304d}' && c2 == '\u{3043}' {
        seq![seq!['k', 'y', 'i']]
    } else if c1 == '\u{304d}' && c2 == '\u{3085}' {
        seq![seq!['k', 'y', 'u']]
    } else if c1 == '\u{304d}' && c2 == '\u{3047}' {
        seq![seq!['k', 'y', 'e']]
    } else if c1 == '\u{304d}' && c2 == '\u{3087}' {
        seq![seq!['k', 'y', 'o']]
    } else if c1 == '\u{304e}' && c2 == '\u{3083}' {
        seq![seq!['g', 'y', 'a']]
    } else if c1 == '\u{304e}' && c2 == '\u{3043}' {
        seq![seq!['g', 'y', 'i']]
    } else if c1 == '\u{304e}' && c2 == '\u{3085}' {
        seq![seq!['g', 'y', 'u']]
    } else if c1 == '\u{304e}' && c2 == '\u{3047}' {
        seq![seq!['g', 'y', 'e']]
    } else if c1 == '\u{304e}' && c2 == '\u{3087}' {
        seq![seq!['g', 'y', 'o']]
    } else if c1 == '\u{3062}' && c2 == '\u{3083}' {
        seq![seq!['d', 'y', 'a']]
    } else if c1 == '\u{3062}' && c2 == '\u{3043}' {
        seq![seq!['d', 'y', 'i']]
    } else if c1 == '\u{3062}' && c2 == '\u{3085}' {
        seq![seq!['d', 'y', 'u']]
    } else if c1 == '\u{3062}' && c2 == '\u{3047}' {
        seq![seq!['d', 'y', 'e']]
    } else if c1 == '\u{3062}' && c2 == '\u{3087}' {
        seq![seq!['d', 'y', 'o']]
    } else if c1 == '\u{306b}' && c2 == '\u{3083}' {
        seq![seq!['n', 'y', 'a']]
    } else if c1 == '\u{306b}' && c2 == '\u{3043}' {
        seq![seq!['n', 'y', 'i']]
    } else if c1 == '\u{306b}' && c2 == '\u{3085}' {
        seq![seq!['n', 'y', 'u']]
    } else if c1 == '\u{306b}' && c2 == '\u{3047}' {
        seq![seq!['n', 'y', 'e']]
    } else if c1 == '\u{306b}' && c2 == '\u{3087}' {
        seq![seq!['n', 'y', 'o']]
    } else if c1 == '\u{3072}' && c2 == '\u{3083}' {
        seq![seq!['h', 'y', 'a']]
    } else if c1 == '\u{3072}' && c2 == '\u{3043}' {
        seq![seq!['h', 'y', 'i']]
    } else if c1 == '\u{3072}' && c2 == '\u{3085}' {
        seq![seq!['h', 'y', 'u']]
    } else if c1 == '\u{3072}' && c2 == '\u{3047}' {
        seq![seq!['h', 'y', 'e']]
    } else if c1 == '\u{3072}' && c2 == '\u{3087}' {
        seq![seq!['h', 'y', 'o']]
    } else {
        Seq::empty()
    }
}

/// The key stroke alternatives of the two character spell `c1 c2` in the table that
/// `double_char_key_strokes_1` holds; empty when it holds none.
pub open spec fn double_char_table_1(c1: char, c2: char) -> Seq<Seq<char>> {
    if c1 == '\u{3073}' && c2 == '\u{3083}' {
        seq![seq!['b', 'y', 'a']]
    } else if c1 == '\u{3073}' && c2 == '\u{3043}' {
        seq![seq!['b', 'y', 'i']]
    } else if c1 == '\u{3073}' && c2 == '\u{3085}' {
        seq![seq!['b', 'y', 'u']]
    } else if c1 == '\u{3073}' && c2 == '\u{3047}' {
        seq![seq!['b', 'y', 'e']]
    } else if c1 == '\u{3073}' && c2 == '\u{3087}' {
        seq![seq!['b', 'y', 'o']]
    } else if c1 == '\u{3074}' && c2 == '\u{3083}' {
        seq![seq!['p', 'y', 'a']]
    } else if c1 == '\u{3074}' && c2 == '\u{3043}' {
        seq![seq!['p', 'y', 'i']]
    } else if c1 == '\u{3074}' && c2 == '\u{3085}' {
        seq![seq!['p', 'y', 'u']]
    } else if c1 == '\u{3074}' && c2 == '\u{3047}' {
        seq![seq!['p', 'y', 'e']]
    } else if c1 == '\u{3074}' && c2 == '\u{3087}' {
        seq![seq!['p', 'y', 'o']]
    } else if c1 == '\u{307f}' && c2 == '\u{3083}' {
        seq![seq!['m', 'y', 'a']]
    } else if c1 == '\u{307f}' && c2 == '\u{3043}' {
        seq![seq!['m', 'y', 'i']]
    } else if c1 == '\u{307f}' && c2 == '\u{3085}' {
        seq![seq!['m', 'y', 'u']]
    } else if c1 == '\u{307f}' && c2 == '\u{3047}' {
        seq![seq!['m', 'y', 'e']]
    } else if c1 == '\u{307f}' && c2 == '\u{3087}' {
        seq![seq!['m', 'y', 'o']]
    } else if c1 == '\u{308a}' && c2 == '\u{3083}' {
        seq![seq!['r', 'y', 'a']]
    } else if c1 == '\u{308a}' && c2 == '\u{3043}' {
        seq![seq!['r', 'y', 'i']]
    } else if c1 == '\u{308a}' && c2 == '\u{3085}' {
        seq![seq!['r', 'y', 'u']]
    } else if c1 == '\u{308a}' && c2 == '\u{3047}' {
        seq![seq!['r', 'y', 'e']]
    } else if c1 == '\u{308a}' && c2 == '\u{3087}' {
        seq![seq!['r', 'y', 'o']]
    } else if c1 == '\u{3057}' && c2 == '\u{3083}' {
        seq![seq!['s', 'y', 'a'], seq!['s', 'h', 'a']]
    } else if c1 == '\u{3057}' && c2 == '\u{3043}' {
        seq![seq!['s', 'y', 'i']]
    } else if c1 == '\u{3057}' && c2 == '\u{3085}' {
        seq![seq!['s', 'y', 'u'], seq!['s', 'h', 'u']]
    } else if c1 == '\u{3057}' && c2 == '\u{3047}' {
        seq![seq!['s', 'y', 'e'], seq!['s', 'h', 'e']]
    } else if c1 == '\u{3057}' && c2 == '\u{3087}' {
        seq![seq!['s', 'y', 'o'], seq!['s', 'h', 'o']]
    } else {
        Seq::empty()
    }
}

/// The key stroke alternatives of the two character spell `c1 c2` in the table that
/// `double_char_key_strokes_2` holds; empty when it holds none.
pub open spec fn double_char_table_2(c1: char, c2: char) -> Seq<Seq<char>> {
    if c1 == '\u{3058}' && c2 == '\u{3083}' {
        seq![seq!['z', 'y', 'a'], seq!['j', 'y', 'a'], seq!['j', 'a']]
    } else if c1 == '\u{3058}' && c2 == '\u{3043}' {
        seq![seq!['z', 'y', 'i'], seq!['j', 'y', 'i']]
    } else if c1 == '\u{3058}' && c2 == '\u{3085}' {
        seq![seq!['z', 'y', 'u'], seq!['j', 'y', 'u'], seq!['j', 'u']]
    } else if c1 == '\u{3058}' && c2 == '\u{3047}' {
        seq![seq!['z', 'y', 'e'], seq!['j', 'y', 'e'], seq!['j', 'e']]
    } else if c1 == '\u{3058}' && c2 == '\u{3087}' {
        seq![seq!['z', 'y', 'o'], seq!['j', 'y', 'o'], seq!['j', 'o']]
    } else if c1 == '\u{3061}' && c2 == '\u{3083}' {
        seq![seq!['t', 'y', 'a'], seq!['c', 'y', 'a'], seq!['c', 'h', 'a']]
    } else if c1 == '\u{3061}' && c2 == '\u{3043}' {
        seq![seq!['t', 'y', 'i'], seq!['c', 'y', 'i']]
    } else if c1 == '\u{3061}' && c2 == '\u{3085}' {
        seq![seq!['t', 'y', 'u'], seq!['c', 'y', 'u'], seq!['c', 'h', 'u']]
    } else if c1 == '\u{3061}' && c2 == '\u{3047}' {
        seq![seq!['t', 'y', 'e'], seq!['c', 'y', 'e'], seq!['c', 'h', 'e']]
    } else if c1 == '\u{3061}' && c2 == '\u{3087}' {
        seq![seq!['t', 'y', 'o'], seq!['c', 'y', 'o'], seq!['c', 'h', 'o']]
    } else if c1 == '\u{3075}' && c2 == '\u{3041}' {
        seq![seq!['f', 'a']]
    } else if c1 == '\u{3075}' && c2 == '\u{3043}' {
        seq![seq!['f', 'i']]
    } else if c1 == '\u{3075}' && c2 == '\u{3047}' {
        seq![seq!['f', 'e']]
    } else if c1 == '\u{3075}' && c2 == '\u{3049}' {
        seq![seq!['f', 'o']]
    } else if c1 == '\u{3075}' && c2 == '\u{3083}' {
        seq![seq!['f', 'y', 'a']]
    } else if c1 == '\u{3075}' && c2 == '\u{3085}' {
        seq![seq!['f', 'y', 'u']]
    } else if c1 == '\u{3075}' && c2 == '\u{3087}' {
        seq![seq!['f', 'y', 'o']]
    } else if c1 == '\u{3066}' && c2 == '\u{3083}' {
        seq![seq!['t', 'h', 'a']]
    } else if c1 == '\u{3066}' && c2 == '\u{3043}' {
        seq![seq!['t', 'h', 'i']]
    } else if c1 == '\u{3066}' && c2 == '\u{3085}' {
        seq![seq!['t', 'h', 'u']]
    } else if c1 == '\u{3066}' && c2 == '\u{3047}' {
        seq![seq!['t', 'h', 'e']]
    } else if c1 == '\u{3066}' && c2 == '\u{3087}' {
        seq![seq!['t', 'h', 'o']]
    } else if c1 == '\u{3067}' && c2 == '\u{3083}' {
        seq![seq!['d', 'h', 'a']]
    } else if c1 == '\u{3067}' && c2 == '\u{3043}' {
        seq![seq!['d', 'h', 'i']]
    } else if c1 == '\u{3067}' && c2 == '\u{3085}' {
        seq![seq!['d', 'h', 'u']]
    } else {
        Seq::empty()
    }
}

/// The key stroke alternatives of the two character spell `c1 c2` in the table that
/// `double_char_key_strokes_3` holds; empty when it holds none.
pub open spec fn double_char_table_3(c1: char, c2: char) -> Seq<Seq<char>> {
    if c1 == '\u{3067}' && c2 == '\u{3047}' {
        seq![seq!['d', 'h', 'e']]
    } else if c1 == '\u{3067}' && c2 == '\u{3087}' {
        seq![seq!['d', 'h', 'o']]
    } else if c1 == '\u{3046}' && c2 == '\u{3043}' {
        seq![seq!['w', 'i']]
    } else if c1 == '\u{3046}' && c2 == '\u{3047}' {
        seq![seq!['w', 'e']]
    } else if c1 == '\u{3094}' && c2 == '\u{3041}' {
        seq![seq!['v', 'a']]
    } else if c1 == '\u{3094}' && c2 == '\u{3043}' {
        seq![seq!['v', 'i']]
    } else if c1 == '\u{3094}' && c2 == '\u{3047}' {
        seq![seq!['v', 'e']]
    } else if c1 == '\u{3094}' && c2 == '\u{3049}' {
        seq![seq!['v', 'o']]
    } else if c1 == '\u{3064}' && c2 == '\u{3041}' {
        seq![seq!['t', 's', 'a']]
    } else if c1 == '\u{3064}' && c2 == '\u{3043}' {
        seq![seq!['t', 's', 'i']]
    } else if c1 == '\u{3064}' && c2 == '\u{3047}' {
        seq![seq!['t', 's', 'e']]
    } else if c1 == '\u{3064}' && c2 == '\u{3049}' {
        seq![seq!['t', 's', 'o']]
    } else {
        Seq::empty()
    }
}

/// The key stroke alternatives which type the single character spell `c`, in dictionary
/// order; empty when there are none.
pub open spec fn spec_single_char_key_strokes(c: char) -> Seq<Seq<char>> {
    if single_char_table_0(c).len() > 0 {
        single_char_table_0(c)
    } else if single_char_table_1(c).len() > 0 {
        single_char_table_1(c)
    } else if single_char_table_2(c).len() > 0 {
        single_char_table_2(c)
    } else if single_char_table_3(c).len() > 0 {
        single_char_table_3(c)
    } else if single_char_table_4(c).len() > 0 {
        single_char_table_4(c)
    } else if single_char_table_5(c).len() > 0 {
        single_char_table_5(c)
    } else if single_char_table_6(c).len() > 0 {
        single_char_table_6(c)
    } else {
        Seq::empty()
    }
}

/// The key stroke alternatives which type the two character spell `c1 c2` at once, in
/// dictionary order; empty when there are none.
pub open spec fn spec_double_char_key_strokes(c1: char, c2: char) -> Seq<Seq<char>> {
    if double_char_table_0(c1, c2).len() > 0 {
        double_char_table_0(c1, c2)
    } else if double_char_table_1(c1, c2).len() > 0 {
        double_char_table_1(c1, c2)
    } else if double_char_table_2(c1, c2).len() > 0 {
        double_char_table_2(c1, c2)
    } else if double_char_table_3(c1, c2).len() > 0 {
        double_char_table_3(c1, c2)
    } else {
        Seq::empty()
    }
}

fn single_char_key_strokes_0(c: char) -> (r: Option<Vec<KeyStrokeString>>)
    ensures
        r is Some <==> (c == '\u{3042}' || c == '\u{3044}' || c == '\u{3046}' || c == '\u{3048}' || c == '\u{304a}' || c == '\u{304b}' || c == '\u{304d}' || c == '\u{304f}' || c == '\u{3051}' || c == '\u{3053}' || c == '\u{3055}' || c == '\u{3057}' || c == '\u{3059}' || c == '\u{305b}' || c == '\u{305d}' || c == '\u{305f}' || c == '\u{3061}' || c == '\u{3064}' || c == '\u{3066}' || c == '\u{3068}'),
        r matches Some(l) ==> wf_key_stroke_list(l@),
        r matches Some(l) ==> key_stroke_views(l@) =~= single_char_table_0(c),
        r is None ==> single_char_table_0(c).len() == 0,
{
    match c {
        '\u{3042}' => Some(l1(ks1('a'))),
        '\u{3044}' => Some(l2(ks1('i'), ks2('y', 'i'))),
        '\u{3046}' => Some(l3(ks1('u'), ks2('w', 'u'), ks3('w', 'h', 'u'))),
        '\u{3048}' => Some(l1(ks1('e'))),
        '\u{304a}' => Some(l1(ks1('o'))),
        '\u{304b}' => Some(l2(ks2('k', 'a'), ks2('c', 'a'))),
        '\u{304d}' => Some(l1(ks2('k', 'i'))),
        '\u{304f}' => Some(l3(ks2('k', 'u'), ks2('c', 'u'), ks2('q', 'u'))),
        '\u{3051}' => Some(l1(ks2('k', 'e'))),
        '\u{3053}' => Some(l2(ks2('k', 'o'), ks2('c', 'o'))),
        '\u{3055}' => Some(l1(ks2('s', 'a'))),
        '\u{3057}' => Some(l3(ks2('s', 'i'), ks2('c', 'i'), ks3('s', 'h', 'i'))),
        '\u{3059}' => Some(l1(ks2('s', 'u'))),
        '\u{305b}' => Some(l2(ks2('s', 'e'), ks2('c', 'e'))),
        '\u{305d}' => Some(l1(ks2('s', 'o'))),
        '\u{305f}' => Some(l1(ks2('t', 'a'))),
        '\u{3061}' => Some(l2(ks2('t', 'i'), ks3('c', 'h', 'i'))),
        '\u{3064}' => Some(l2(ks2('t', 'u'), ks3('t', 's', 'u'))),
        '\u{3066}' => Some(l1(ks2('t', 'e'))),
        '\u{3068}' => Some(l1(ks2('t', 'o'))),
        _ => None,
    }
}

fn single_char_key_strokes_1(c: char) -> (r: Option<Vec<KeyStrokeString>>)
    ensures
        r is Some <==> (c == '\u{306a}' || c == '\u{306b}' || c == '\u{306c}' || c == '\u{306d}' || c == '\u{306e}' || c == '\u{306f}' || c == '\u{3072}' || c == '\u{3075}' || c == '\u{3078}' || c == '\u{307b}' || c == '\u{307e}' || c == '\u{307f}' || c == '\u{3080}' || c == '\u{3081}' || c == '\u{3082}' || c == '\u{3084}' || c == '\u{3086}' || c == '\u{3088}' || c == '\u{3089}' || c == '\u{308a}'),
        r matches Some(l) ==> wf_key_stroke_list(l@),
        r matches Some(l) ==> key_stroke_views(l@) =~= single_char_table_1(c),
        r is None ==> single_char_table_1(c).len() == 0,
{
    match c {
        '\u{306a}' => Some(l1(ks2('n', 'a'))),
        '\u{306b}' => Some(l1(ks2('n', 'i'))),
        '\u{306c}' => Some(l1(ks2('n', 'u'))),
        '\u{306d}' => Some(l1(ks2('n', 'e'))),
        '\u{306e}' => Some(l1(ks2('n', 'o'))),
        '\u{306f}' => Some(l1(ks2('h', 'a'))),
        '\u{3072}' => Some(l1(ks2('h', 'i'))),
        '\u{3075}' => Some(l2(ks2('h', 'u'), ks2('f', 'u'))),
        '\u{3078}' => Some(l1(ks2('h', 'e'))),
        '\u{307b}' => Some(l1(ks2('h', 'o'))),
        '\u{307e}' => Some(l1(ks2('m', 'a'))),
        '\u{307f}' => Some(l1(ks2('m', 'i'))),
        '\u{3080}' => Some(l1(ks2('m', 'u'))),
        '\u{3081}' => Some(l1(ks2('m', 'e'))),
        '\u{3082}' => Some(l1(ks2('m', 'o'))),
        '\u{3084}' => Some(l1(ks2('y', 'a'))),
        '\u{3086}' => Some(l1(ks2('y', 'u'))),
        '\u{3088}' => Some(l1(ks2('y', 'o'))),
        '\u{3089}' => Some(l1(ks2('r', 'a'))),
        '\u{308a}' => Some(l1(ks2('r', 'i'))),
        _ => None,
    }
}

fn single_char_key_strokes_2(c: char) -> (r: Option<Vec<KeyStrokeString>>)
    ensures
        r is Some <==> (c == '\u{308b}' || c == '\u{308c}' || c == '\u{308d}' || c == '\u{308f}' || c == '\u{3092}' || c == '\u{3093}' || c == '\u{304c}' || c == '\u{304e}' || c == '\u{3050}' || c == '\u{3052}' || c == '\u{3054}' || c == '\u{3056}' || c == '\u{3058}' || c == '\u{305a}' || c == '\u{305c}' || c == '\u{305e}' || c == '\u{3060}' || c == '\u{3062}' || c == '\u{3065}' || c == '\u{3067}'),
        r matches Some(l) ==> wf_key_stroke_list(l@),
        r matches Some(l) ==> key_stroke_views(l@) =~= single_char_table_2(c),
        r is None ==> single_char_table_2(c).len() == 0,
{
    match c {
        '\u{308b}' => Some(l1(ks2('r', 'u'))),
        '\u{308c}' => Some(l1(ks2('r', 'e'))),
        '\u{308d}' => Some(l1(ks2('r', 'o'))),
        '\u{308f}' => Some(l1(ks2('w', 'a'))),
        '\u{3092}' => Some(l1(ks2('w', 'o'))),
        '\u{3093}' => Some(l3(ks1('n'), ks2('n', 'n'), ks2('x', 'n'))),
        '\u{304c}' => Some(l1(ks2('g', 'a'))),
        '\u{304e}' => Some(l1(ks2('g', 'i'))),
        '\u{3050}' => Some(l1(ks2('g', 'u'))),
        '\u{3052}' => Some(l1(ks2('g', 'e'))),
        '\u{3054}' => Some(l1(ks2('g', 'o'))),
        '\u{3056}' => Some(l1(ks2('z', 'a'))),
        '\u{3058}' => Some(l2(ks2('z', 'i'), ks2('j', 'i'))),
        '\u{305a}' => Some(l1(ks2('z', 'u'))),
        '\u{305c}' => Some(l1(ks2('z', 'e'))),
        '\u{305e}' => Some(l1(ks2('z', 'o'))),
        '\u{3060}' => Some(l1(ks2('d', 'a'))),
        '\u{3062}' => Some(l1(ks2('d', 'i'))),
        '\u{3065}' => Some(l1(ks2('d', 'u'))),
        '\u{3067}' => Some(l1(ks2('d', 'e'))),
        _ => None,
    }
}

fn single_char_key_strokes_3(c: char) -> (r: Option<Vec<KeyStrokeString>>)
    ensures
        r is Some <==> (c == '\u{3069}' || c == '\u{3070}' || c == '\u{3073}' || c == '\u{3076}' || c == '\u{3079}' || c == '\u{307c}' || c == '\u{3071}' || c == '\u{3074}' || c == '\u{3077}' || c == '\u{307a}' || c == '\u{307d}' || c == '\u{3041}' || c == '\u{3043}' || c == '\u{3045}' || c == '\u{3047}' || c == '\u{3049}' || c == '\u{3083}' || c == '\u{3085}' || c == '\u{3087}' || c == '\u{3063}'),
        r matches Some(l) ==> wf_key_stroke_list(l@),
        r matches Some(l) ==> key_stroke_views(l@) =~= single_char_table_3(c),
        r is None ==> single_char_table_3(c).len() == 0,
{
    match c {
        '\u{3069}' => Some(l1(ks2('d', 'o'))),
        '\u{3070}' => Some(l1(ks2('b', 'a'))),
        '\u{3073}' => Some(l1(ks2('b', 'i'))),
        '\u{3076}' => Some(l1(ks2('b', 'u'))),
        '\u{3079}' => Some(l1(ks2('b', 'e'))),
        '\u{307c}' => Some(l1(ks2('b', 'o'))),
        '\u{3071}' => Some(l1(ks2('p', 'a'))),
        '\u{3074}' => Some(l1(ks2('p', 'i'))),
        '\u{3077}' => Some(l1(ks2('p', 'u'))),
        '\u{307a}' => Some(l1(ks2('p', 'e'))),
        '\u{307d}' => Some(l1(ks2('p', 'o'))),
        '\u{3041}' => Some(l2(ks2('l', 'a'), ks2('x', 'a'))),
        '\u{3043}' => Some(l2(ks2('l', 'i'), ks2('x', 'i'))),
        '\u{3045}' => Some(l2(ks2('l', 'u'), ks2('x', 'u'))),
        '\u{3047}' => Some(l2(ks2('l', 'e'), ks2('x', 'e'))),
        '\u{3049}' => Some(l2(ks2('l', 'o'), ks2('x', 'o'))),
        '\u{3083}' => Some(l2(ks3('l', 'y', 'a'), ks3('x', 'y', 'a'))),
        '\u{3085}' => Some(l2(ks3('l', 'y', 'u'), ks3('x', 'y', 'u'))),
        '\u{3087}' => Some(l2(ks3('l', 'y', 'o'), ks3('x', 'y', 'o'))),
        '\u{3063}' => Some(l3(ks3('l', 't', 'u'), ks3('x', 't', 'u'), ks4('l', 't', 's', 'u'))),
        _ => None,
    }
}

fn single_char_key_strokes_4(c: char) -> (r: Option<Vec<KeyStrokeString>>)
    ensures
        r is Some <==> (c == '\u{308e}' || c == '\u{3094}'),
        r matches Some(l) ==> wf_key_stroke_list(l@),
        r matches Some(l) ==> key_stroke_views(l@) =~= single_char_table_4(c),
        r is None ==> single_char_table_4(c).len() == 0,
{
    match c {
        '\u{308e}' => Some(l2(ks3('l', 'w', 'a'), ks3('x', 'w', 'a'))),
        '\u{3094}' => Some(l1(ks2('v', 'u'))),
        _ => None,
    }
}

fn single_char_key_strokes_5(c: char) -> (r: Option<Vec<KeyStrokeString>>)
    ensures
        r is Some <==> (c == '\u{2019}' || c == '\u{201d}' || c == '\u{3000}' || c == '\u{3001}' || c == '\u{3002}' || c == '\u{300c}' || c == '\u{300d}' || c == '\u{301c}' || c == '\u{30fb}' || c == '\u{30fc}' || c == '\u{ff01}' || c == '\u{ff03}' || c == '\u{ff04}' || c == '\u{ff05}' || c == '\u{ff06}' || c == '\u{ff08}' || c == '\u{ff09}'),
        r matches Some(l) ==> wf_key_stroke_list(l@),
        r matches Some(l) ==> key_stroke_views(l@) =~= single_char_table_5(c),
        r is None ==> single_char_table_5(c).len() == 0,
{
    match c {
        '\u{2019}' => Some(l1(ks1('\''))),
        '\u{201d}' => Some(l1(ks1('"'))),
        '\u{3000}' => Some(l1(ks1(' '))),
        '\u{3001}' => Some(l1(ks1(','))),
        '\u{3002}' => Some(l1(ks1('.'))),
        '\u{300c}' => Some(l1(ks1('['))),
        '\u{300d}' => Some(l1(ks1(']'))),
        '\u{301c}' => Some(l1(ks1('~'))),
        '\u{30fb}' => Some(l1(ks1('/'))),
        '\u{30fc}' => Some(l1(ks1('-'))),
        '\u{ff01}' => Some(l1(ks1('!'))),
        '\u{ff03}' => Some(l1(ks1('#'))),
        '\u{ff04}' => Some(l1(ks1('$'))),
        '\u{ff05}' => Some(l1(ks1('%'))),
        '\u{ff06}' => Some(l1(ks1('&'))),
        '\u{ff08}' => Some(l1(ks1('('))),
        '\u{ff09}' => Some(l1(ks1(')'))),
        _ => None,
    }
}

fn single_char_key_strokes_6(c: char) -> (r: Option<Vec<KeyStrokeString>>)
    ensures
        r is Some <==> (c == '\u{ff0a}' || c == '\u{ff0b}' || c == '\u{ff0f}' || c == '\u{ff1a}' || c == '\u{ff1b}' || c == '\u{ff1c}' || c == '\u{ff1d}' || c == '\u{ff1e}' || c == '\u{ff1f}' || c == '\u{ff20}' || c == '\u{ff3e}' || c == '\u{ff3f}' || c == '\u{ff40}' || c == '\u{ff5b}' || c == '\u{ff5c}' || c == '\u{ff5d}' || c == '\u{ffe5}'),
        r matches Some(l) ==> wf_key_stroke_list(l@),
        r matches Some(l) ==> key_stroke_views(l@) =~= single_char_table_6(c),
        r is None ==> single_char_table_6(c).len() == 0,
{
    match c {
        '\u{ff0a}' => Some(l1(ks1('*'))),
        '\u{ff0b}' => Some(l1(ks1('+'))),
        '\u{ff0f}' => Some(l1(ks1('/'))),
        '\u{ff1a}' => Some(l1(ks1(':'))),
        '\u{ff1b}' => Some(l1(ks1(';'))),
        '\u{ff1c}' => Some(l1(ks1('<'))),
        '\u{ff1d}' => Some(l1(ks1('='))),
        '\u{ff1e}' => Some(l1(ks1('>'))),
        '\u{ff1f}' => Some(l1(ks1('?'))),
        '\u{ff20}' => Some(l1(ks1('@'))),
        '\u{ff3e}' => Some(l1(ks1('^'))),
        '\u{ff3f}' => Some(l1(ks1('_'))),
        '\u{ff40}' => Some(l1(ks1('`'))),
        '\u{ff5b}' => Some(l1(ks1('{'))),
        '\u{ff5c}' => Some(l1(ks1('|'))),
        '\u{ff5d}' => Some(l1(ks1('}'))),
        '\u{ffe5}' => Some(l1(ks1('\\'))),
        _ => None,
    }
}

/// The key stroke alternatives which type the single character spell `c`, in dictionary
/// order; `None` when `c` is not a hiragana or a Japanese symbol.
pub fn single_char_key_strokes(c: char) -> (r: Option<Vec<KeyStrokeString>>)
    ensures
        r is Some <==> (spec_is_hiragana(c) || spec_is_japanese_symbol(c)),
        r matches Some(l) ==> wf_key_stroke_list(l@),
        r matches Some(l) ==> key_stroke_views(l@) == spec_single_char_key_strokes(c),
        standard_romanization(c) matches Some(w) ==> (r matches Some(l) && key_stroke_views(l@).contains(w)),
{
    proof {
        if standard_romanization(c) is Some {
            law_kana_typed_by_standard_romanization(c);
            assert(spec_is_hiragana(c));
        }
    }
    let r = single_char_key_strokes_0(c);
    if r.is_some() {
        return r;
    }
    let r = single_char_key_strokes_1(c);
    if r.is_some() {
        return r;
    }
    let r = single_char_key_strokes_2(c);
    if r.is_some() {
        return r;
    }
    let r = single_char_key_strokes_3(c);
    if r.is_some() {
        return r;
    }
    let r = single_char_key_strokes_4(c);
    if r.is_some() {
        return r;
    }
    let r = single_char_key_strokes_5(c);
    if r.is_some() {
        return r;
    }
    let r = single_char_key_strokes_6(c);
    if r.is_some() {
        return r;
    }
    None
}

/// Whether the two character spell `c1 c2` is typed as a single chunk.
pub open spec fn spec_is_double_chunk(c1: char, c2: char) -> bool {
    ||| (c1 == '\u{304d}' && c2 == '\u{3083}')
    ||| (c1 == '\u{304d}' && c2 == '\u{3043}')
    ||| (c1 == '\u{304d}' && c2 == '\u{3085}')
    ||| (c1 == '\u{304d}' && c2 == '\u{3047}')
    ||| (c1 == '\u{304d}' && c2 == '\u{3087}')
    ||| (c1 == '\u{304e}' && c2 == '\u{3083}')
    ||| (c1 == '\u{304e}' && c2 == '\u{3043}')
    ||| (c1 == '\u{304e}' && c2 == '\u{3085}')
    ||| (c1 == '\u{304e}' && c2 == '\u{3047}')
    ||| (c1 == '\u{304e}' && c2 == '\u{3087}')
    ||| (c1 == '\u{3062}' && c2 == '\u{3083}')
    ||| (c1 == '\u{3062}' && c2 == '\u{3043}')
    ||| (c1 == '\u{3062}' && c2 == '\u{3085}')
    ||| (c1 == '\u{3062}' && c2 == '\u{3047}')
    ||| (c1 == '\u{3062}' && c2 == '\u{3087}')
    ||| (c1 == '\u{306b}' && c2 == '\u{3083}')
    ||| (c1 == '\u{306b}' && c2 == '\u{3043}')
    ||| (c1 == '\u{306b}' && c2 == '\u{3085}')
    ||| (c1 == '\u{306b}' && c2 == '\u{3047}')
    ||| (c1 == '\u{306b}' && c2 == '\u{3087}')
    ||| (c1 == '\u{3072}' && c2 == '\u{3083}')
    ||| (c1 == '\u{3072}' && c2 == '\u{3043}')
    ||| (c1 == '\u{3072}' && c2 == '\u{3085}')
    ||| (c1 == '\u{3072}' && c2 == '\u{3047}')
    ||| (c1 == '\u{3072}' && c2 == '\u{3087}')
    ||| (c1 == '\u{3073}' && c2 == '\u{3083}')
    ||| (c1 == '\u{3073}' && c2 == '\u{3043}')
    ||| (c1 == '\u{3073}' && c2 == '\u{3085}')
    ||| (c1 == '\u{3073}' && c2 == '\u{3047}')
    ||| (c1 == '\u{3073}' && c2 == '\u{3087}')
    ||| (c1 == '\u{3074}' && c2 == '\u{3083}')
    ||| (c1 == '\u{3074}' && c2 == '\u{3043}')
    ||| (c1 == '\u{3074}' && c2 == '\u{3085}')
    ||| (c1 == '\u{3074}' && c2 == '\u{3047}')
    ||| (c1 == '\u{3074}' && c2 == '\u{3087}')
    ||| (c1 == '\u{307f}' && c2 == '\u{3083}')
    ||| (c1 == '\u{307f}' && c2 == '\u{3043}')
    ||| (c1 == '\u{307f}' && c2 == '\u{3085}')
    ||| (c1 == '\u{307f}' && c2 == '\u{3047}')
    ||| (c1 == '\u{307f}' && c2 == '\u{3087}')
    ||| (c1 == '\u{308a}' && c2 == '\u{3083}')
    ||| (c1 == '\u{308a}' && c2 == '\u{3043}')
    ||| (c1 == '\u{308a}' && c2 == '\u{3085}')
    ||| (c1 == '\u{308a}' && c2 == '\u{3047}')
    ||| (c1 == '\u{308a}' && c2 == '\u{3087}')
    ||| (c1 == '\u{3057}' && c2 == '\u{3083}')
    ||| (c1 == '\u{3057}' && c2 == '\u{3043}')
    ||| (c1 == '\u{3057}' && c2 == '\u{3085}')
    ||| (c1 == '\u{3057}' && c2 == '\u{3047}')
    ||| (c1 == '\u{3057}' && c2 == '\u{3087}')
    ||| (c1 == '\u{3058}' && c2 == '\u{3083}')
    ||| (c1 == '\u{3058}' && c2 == '\u{3043}')
    ||| (c1 == '\u{3058}' && c2 == '\u{3085}')
    ||| (c1 == '\u{3058}' && c2 == '\u{3047}')
    ||| (c1 == '\u{3058}' && c2 == '\u{3087}')
    ||| (c1 == '\u{3061}' && c2 == '\u{3083}')
    ||| (c1 == '\u{3061}' && c2 == '\u{3043}')
    ||| (c1 == '\u{3061}' && c2 == '\u{3085}')
    ||| (c1 == '\u{3061}' && c2 == '\u{3047}')
    ||| (c1 == '\u{3061}' && c2 == '\u{3087}')
    ||| (c1 == '\u{3075}' && c2 == '\u{3041}')
    ||| (c1 == '\u{3075}' && c2 == '\u{3043}')
    ||| (c1 == '\u{3075}' && c2 == '\u{3047}')
    ||| (c1 == '\u{3075}' && c2 == '\u{3049}')
    ||| (c1 == '\u{3075}' && c2 == '\u{3083}')
    ||| (c1 == '\u{3075}' && c2 == '\u{3085}')
    ||| (c1 == '\u{3075}' && c2 == '\u{3087}')
    ||| (c1 == '\u{3066}' && c2 == '\u{3083}')
    ||| (c1 == '\u{3066}' && c2 == '\u{3043}')
    ||| (c1 == '\u{3066}' && c2 == '\u{3085}')
    ||| (c1 == '\u{3066}' && c2 == '\u{3047}')
    ||| (c1 == '\u{3066}' && c2 == '\u{3087}')
    ||| (c1 == '\u{3067}' && c2 == '\u{3083}')
    ||| (c1 == '\u{3067}' && c2 == '\u{3043}')
    ||| (c1 == '\u{3067}' && c2 == '\u{3085}')
    ||| (c1 == '\u{3067}' && c2 == '\u{3047}')
    ||| (c1 == '\u{3067}' && c2 == '\u{3087}')
    ||| (c1 == '\u{3046}' && c2 == '\u{3043}')
    ||| (c1 == '\u{3046}' && c2 == '\u{3047}')
    ||| (c1 == '\u{3094}' && c2 == '\u{3041}')
    ||| (c1 == '\u{3094}' && c2 == '\u{3043}')
    ||| (c1 == '\u{3094}' && c2 == '\u{3047}')
    ||| (c1 == '\u{3094}' && c2 == '\u{3049}')
    ||| (c1 == '\u{3064}' && c2 == '\u{3041}')
    ||| (c1 == '\u{3064}' && c2 == '\u{3043}')
    ||| (c1 == '\u{3064}' && c2 == '\u{3047}')
    ||| (c1 == '\u{3064}' && c2 == '\u{3049}')
}

fn double_char_key_strokes_0(c1: char, c2: char) -> (r: Option<Vec<KeyStrokeString>>)
    ensures
        r is Some <==> ((c1 == '\u{304d}' && c2 == '\u{3083}') || (c1 == '\u{304d}' && c2 == '\u{3043}') || (c1 == '\u{304d}' && c2 == '\u{3085}') || (c1 == '\u{304d}' && c2 == '\u{3047}') || (c1 == '\u{304d}' && c2 == '\u{3087}') || (c1 == '\u{304e}' && c2 == '\u{3083}') || (c1 == '\u{304e}' && c2 == '\u{3043}') || (c1 == '\u{304e}' && c2 == '\u{3085}') || (c1 == '\u{304e}' && c2 == '\u{3047}') || (c1 == '\u{304e}' && c2 == '\u{3087}') || (c1 == '\u{3062}' && c2 == '\u{3083}') || (c1 == '\u{3062}' && c2 == '\u{3043}') || (c1 == '\u{3062}' && c2 == '\u{3085}') || (c1 == '\u{3062}' && c2 == '\u{3047}') || (c1 == '\u{3062}' && c2 == '\u{3087}') || (c1 == '\u{306b}' && c2 == '\u{3083}') || (c1 == '\u{306b}' && c2 == '\u{3043}') || (c1 == '\u{306b}' && c2 == '\u{3085}') || (c1 == '\u{306b}' && c2 == '\u{3047}') || (c1 == '\u{306b}' && c2 == '\u{3087}') || (c1 == '\u{3072}' && c2 == '\u{3083}') || (c1 == '\u{3072}' && c2 == '\u{3043}') || (c1 == '\u{3072}' && c2 == '\u{3085}') || (c1 == '\u{3072}' && c2 == '\u{3047}') || (c1 == '\u{3072}' && c2 == '\u{3087}')),
        r matches Some(l) ==> wf_key_stroke_list(l@),
        r matches Some(l) ==> key_stroke_views(l@) =~= double_char_table_0(c1, c2),
        r is None ==> double_char_table_0(c1, c2).len() == 0,
{
    match (c1, c2) {
        ('\u{304d}', '\u{3083}') => Some(l1(ks3('k', 'y', 'a'))),
        ('\u{304d}', '\u{3043}') => Some(l1(ks3('k', 'y', 'i'))),
        ('\u{304d}', '\u{3085}') => Some(l1(ks3('k', 'y', 'u'))),
        ('\u{304d}', '\u{3047}') => Some(l1(ks3('k', 'y', 'e'))),
        ('\u{304d}', '\u{3087}') => Some(l1(ks3('k', 'y', 'o'))),
        ('\u{304e}', '\u{3083}') => Some(l1(ks3('g', 'y', 'a'))),
        ('\u{304e}', '\u{3043}') => Some(l1(ks3('g', 'y', 'i'))),
        ('\u{304e}', '\u{3085}') => Some(l1(ks3('g', 'y', 'u'))),
        ('\u{304e}', '\u{3047}') => Some(l1(ks3('g', 'y', 'e'))),
        ('\u{304e}', '\u{3087}') => Some(l1(ks3('g', 'y', 'o'))),
        ('\u{3062}', '\u{3083}') => Some(l1(ks3('d', 'y', 'a'))),
        ('\u{3062}', '\u{3043}') => Some(l1(ks3('d', 'y', 'i'))),
        ('\u{3062}', '\u{3085}') => Some(l1(ks3('d', 'y', 'u'))),
        ('\u{3062}', '\u{3047}') => Some(l1(ks3('d', 'y', 'e'))),
        ('\u{3062}', '\u{3087}') => Some(l1(ks3('d', 'y', 'o'))),
        ('\u{306b}', '\u{3083}') => Some(l1(ks3('n', 'y', 'a'))),
        ('\u{306b}', '\u{3043}') => Some(l1(ks3('n', 'y', 'i'))),
        ('\u{306b}', '\u{3085}') => Some(l1(ks3('n', 'y', 'u'))),
        ('\u{306b}', '\u{3047}') => Some(l1(ks3('n', 'y', 'e'))),
        ('\u{306b}', '\u{3087}') => Some(l1(ks3('n', 'y', 'o'))),
        ('\u{3072}', '\u{3083}') => Some(l1(ks3('h', 'y', 'a'))),
        ('\u{3072}', '\u{3043}') => Some(l1(ks3('h', 'y', 'i'))),
        ('\u{3072}', '\u{3085}') => Some(l1(ks3('h', 'y', 'u'))),
        ('\u{3072}', '\u{3047}') => Some(l1(ks3('h', 'y', 'e'))),
        ('\u{3072}', '\u{3087}') => Some(l1(ks3('h', 'y', 'o'))),
        _ => None,
    }
}

fn double_char_key_strokes_1(c1: char, c2: char) -> (r: Option<Vec<KeyStrokeString>>)
    ensures
        r is Some <==> ((c1 == '\u{3073}' && c2 == '\u{3083}') || (c1 == '\u{3073}' && c2 == '\u{3043}') || (c1 == '\u{3073}' && c2 == '\u{3085}') || (c1 == '\u{3073}' && c2 == '\u{3047}') || (c1 == '\u{3073}' && c2 == '\u{3087}') || (c1 == '\u{3074}' && c2 == '\u{3083}') || (c1 == '\u{3074}' && c2 == '\u{3043}') || (c1 == '\u{3074}' && c2 == '\u{3085}') || (c1 == '\u{3074}' && c2 == '\u{3047}') || (c1 == '\u{3074}' && c2 == '\u{3087}') || (c1 == '\u{307f}' && c2 == '\u{3083}') || (c1 == '\u{307f}' && c2 == '\u{3043}') || (c1 == '\u{307f}' && c2 == '\u{3085}') || (c1 == '\u{307f}' && c2 == '\u{3047}') || (c1 == '\u{307f}' && c2 == '\u{3087}') || (c1 == '\u{308a}' && c2 == '\u{3083}') || (c1 == '\u{308a}' && c2 == '\u{3043}') || (c1 == '\u{308a}' && c2 == '\u{3085}') || (c1 == '\u{308a}' && c2 == '\u{3047}') || (c1 == '\u{308a}' && c2 == '\u{3087}') || (c1 == '\u{3057}' && c2 == '\u{3083}') || (c1 == '\u{3057}' && c2 == '\u{3043}') || (c1 == '\u{3057}' && c2 == '\u{3085}') || (c1 == '\u{3057}' && c2 == '\u{3047}') || (c1 == '\u{3057}' && c2 == '\u{3087}')),
        r matches Some(l) ==> wf_key_stroke_list(l@),
        r matches Some(l) ==> key_stroke_views(l@) =~= double_char_table_1(c1, c2),
        r is None ==> double_char_table_1(c1, c2).len() == 0,
{
    match (c1, c2) {
        ('\u{3073}', '\u{3083}') => Some(l1(ks3('b', 'y', 'a'))),
        ('\u{3073}', '\u{3043}') => Some(l1(ks3('b', 'y', 'i'))),
        ('\u{3073}', '\u{3085}') => Some(l1(ks3('b', 'y', 'u'))),
        ('\u{3073}', '\u{3047}') => Some(l1(ks3('b', 'y', 'e'))),
        ('\u{3073}', '\u{3087}') => Some(l1(ks3('b', 'y', 'o'))),
        ('\u{3074}', '\u{3083}') => Some(l1(ks3('p', 'y', 'a'))),
        ('\u{3074}', '\u{3043}') => Some(l1(ks3('p', 'y', 'i'))),
        ('\u{3074}', '\u{3085}') => Some(l1(ks3('p', 'y', 'u'))),
        ('\u{3074}', '\u{3047}') => Some(l1(ks3('p', 'y', 'e'))),
        ('\u{3074}', '\u{3087}') => Some(l1(ks3('p', 'y', 'o'))),
        ('\u{307f}', '\u{3083}') => Some(l1(ks3('m', 'y', 'a'))),
        ('\u{307f}', '\u{3043}') => Some(l1(ks3('m', 'y', 'i'))),
        ('\u{307f}', '\u{3085}') => Some(l1(ks3('m', 'y', 'u'))),
        ('\u{307f}', '\u{3047}') => Some(l1(ks3('m', 'y', 'e'))),
        ('\u{307f}', '\u{3087}') => Some(l1(ks3('m', 'y', 'o'))),
        ('\u{308a}', '\u{3083}') => Some(l1(ks3('r', 'y', 'a'))),
        ('\u{308a}', '\u{3043}') => Some(l1(ks3('r', 'y', 'i'))),
        ('\u{308a}', '\u{3085}') => Some(l1(ks3('r', 'y', 'u'))),
        ('\u{308a}', '\u{3047}') => Some(l1(ks3('r', 'y', 'e'))),
        ('\u{308a}', '\u{3087}') => Some(l1(ks3('r', 'y', 'o'))),
        ('\u{3057}', '\u{3083}') => Some(l2(ks3('s', 'y', 'a'), ks3('s', 'h', 'a'))),
        ('\u{3057}', '\u{3043}') => Some(l1(ks3('s', 'y', 'i'))),
        ('\u{3057}', '\u{3085}') => Some(l2(ks3('s', 'y', 'u'), ks3('s', 'h', 'u'))),
        ('\u{3057}', '\u{3047}') => Some(l2(ks3('s', 'y', 'e'), ks3('s', 'h', 'e'))),
        ('\u{3057}', '\u{3087}') => Some(l2(ks3('s', 'y', 'o'), ks3('s', 'h', 'o'))),
        _ => None,
    }
}

fn double_char_key_strokes_2(c1: char, c2: char) -> (r: Option<Vec<KeyStrokeString>>)
    ensures
        r is Some <==> ((c1 == '\u{3058}' && c2 == '\u{3083}') || (c1 == '\u{3058}' && c2 == '\u{3043}') || (c1 == '\u{3058}' && c2 == '\u{3085}') || (c1 == '\u{3058}' && c2 == '\u{3047}') || (c1 == '\u{3058}' && c2 == '\u{3087}') || (c1 == '\u{3061}' && c2 == '\u{3083}') || (c1 == '\u{3061}' && c2 == '\u{3043}') || (c1 == '\u{3061}' && c2 == '\u{3085}') || (c1 == '\u{3061}' && c2 == '\u{3047}') || (c1 == '\u{3061}' && c2 == '\u{3087}') || (c1 == '\u{3075}' && c2 == '\u{3041}') || (c1 == '\u{3075}' && c2 == '\u{3043}') || (c1 == '\u{3075}' && c2 == '\u{3047}') || (c1 == '\u{3075}' && c2 == '\u{3049}') || (c1 == '\u{3075}' && c2 == '\u{3083}') || (c1 == '\u{3075}' && c2 == '\u{3085}') || (c1 == '\u{3075}' && c2 == '\u{3087}') || (c1 == '\u{3066}' && c2 == '\u{3083}') || (c1 == '\u{3066}' && c2 == '\u{3043}') || (c1 == '\u{3066}' && c2 == '\u{3085}') || (c1 == '\u{3066}' && c2 == '\u{3047}') || (c1 == '\u{3066}' && c2 == '\u{3087}') || (c1 == '\u{3067}' && c2 == '\u{3083}') || (c1 == '\u{3067}' && c2 == '\u{3043}') || (c1 == '\u{3067}' && c2 == '\u{3085}')),
        r matches Some(l) ==> wf_key_stroke_list(l@),
        r matches Some(l) ==> key_stroke_views(l@) =~= double_char_table_2(c1, c2),
        r is None ==> double_char_table_2(c1, c2).len() == 0,
{
    match (c1, c2) {
        ('\u{3058}', '\u{3083}') => Some(l3(ks3('z', 'y', 'a'), ks3('j', 'y', 'a'), ks2('j', 'a'))),
        ('\u{3058}', '\u{3043}') => Some(l2(ks3('z', 'y', 'i'), ks3('j', 'y', 'i'))),
        ('\u{3058}', '\u{3085}') => Some(l3(ks3('z', 'y', 'u'), ks3('j', 'y', 'u'), ks2('j', 'u'))),
        ('\u{3058}', '\u{3047}') => Some(l3(ks3('z', 'y', 'e'), ks3('j', 'y', 'e'), ks2('j', 'e'))),
        ('\u{3058}', '\u{3087}') => Some(l3(ks3('z', 'y', 'o'), ks3('j', 'y', 'o'), ks2('j', 'o'))),
        ('\u{3061}', '\u{3083}') => Some(l3(ks3('t', 'y', 'a'), ks3('c', 'y', 'a'), ks3('c', 'h', 'a'))),
        ('\u{3061}', '\u{3043}') => Some(l2(ks3('t', 'y', 'i'), ks3('c', 'y', 'i'))),
        ('\u{3061}', '\u{3085}') => Some(l3(ks3('t', 'y', 'u'), ks3('c', 'y', 'u'), ks3('c', 'h', 'u'))),
        ('\u{3061}', '\u{3047}') => Some(l3(ks3('t', 'y', 'e'), ks3('c', 'y', 'e'), ks3('c', 'h', 'e'))),
        ('\u{3061}', '\u{3087}') => Some(l3(ks3('t', 'y', 'o'), ks3('c', 'y', 'o'), ks3('c', 'h', 'o'))),
        ('\u{3075}', '\u{3041}') => Some(l1(ks2('f', 'a'))),
        ('\u{3075}', '\u{3043}') => Some(l1(ks2('f', 'i'))),
        ('\u{3075}', '\u{3047}') => Some(l1(ks2('f', 'e'))),
        ('\u{3075}', '\u{3049}') => Some(l1(ks2('f', 'o'))),
        ('\u{3075}', '\u{3083}') => Some(l1(ks3('f', 'y', 'a'))),
        ('\u{3075}', '\u{3085}') => Some(l1(ks3('f', 'y', 'u'))),
        ('\u{3075}', '\u{3087}') => Some(l1(ks3('f', 'y', 'o'))),
        ('\u{3066}', '\u{3083}') => Some(l1(ks3('t', 'h', 'a'))),
        ('\u{3066}', '\u{3043}') => Some(l1(ks3('t', 'h', 'i'))),
        ('\u{3066}', '\u{3085}') => Some(l1(ks3('t', 'h', 'u'))),
        ('\u{3066}', '\u{3047}') => Some(l1(ks3('t', 'h', 'e'))),
        ('\u{3066}', '\u{3087}') => Some(l1(ks3('t', 'h', 'o'))),
        ('\u{3067}', '\u{3083}') => Some(l1(ks3('d', 'h', 'a'))),
        ('\u{3067}', '\u{3043}') => Some(l1(ks3('d', 'h', 'i'))),
        ('\u{3067}', '\u{3085}') => Some(l1(ks3('d', 'h', 'u'))),
        _ => None,
    }
}

fn double_char_key_strokes_3(c1: char, c2: char) -> (r: Option<Vec<KeyStrokeString>>)
    ensures
        r is Some <==> ((c1 == '\u{3067}' && c2 == '\u{3047}') || (c1 == '\u{3067}' && c2 == '\u{3087}') || (c1 == '\u{3046}' && c2 == '\u{3043}') || (c1 == '\u{3046}' && c2 == '\u{3047}') || (c1 == '\u{3094}' && c2 == '\u{3041}') || (c1 == '\u{3094}' && c2 == '\u{3043}') || (c1 == '\u{3094}' && c2 == '\u{3047}') || (c1 == '\u{3094}' && c2 == '\u{3049}') || (c1 == '\u{3064}' && c2 == '\u{3041}') || (c1 == '\u{3064}' && c2 == '\u{3043}') || (c1 == '\u{3064}' && c2 == '\u{3047}') || (c1 == '\u{3064}' && c2 == '\u{3049}')),
        r matches Some(l) ==> wf_key_stroke_list(l@),
        r matches Some(l) ==> key_stroke_views(l@) =~= double_char_table_3(c1, c2),
        r is None ==> double_char_table_3(c1, c2).len() == 0,
{
    match (c1, c2) {
        ('\u{3067}', '\u{3047}') => Some(l1(ks3('d', 'h', 'e'))),
        ('\u{3067}', '\u{3087}') => Some(l1(ks3('d', 'h', 'o'))),
        ('\u{3046}', '\u{3043}') => Some(l1(ks2('w', 'i'))),
        ('\u{3046}', '\u{3047}') => Some(l1(ks2('w', 'e'))),
        ('\u{3094}', '\u{3041}') => Some(l1(ks2('v', 'a'))),
        ('\u{3094}', '\u{3043}') => Some(l1(ks2('v', 'i'))),
        ('\u{3094}', '\u{3047}') => Some(l1(ks2('v', 'e'))),
        ('\u{3094}', '\u{3049}') => Some(l1(ks2('v', 'o'))),
        ('\u{3064}', '\u{3041}') => Some(l1(ks3('t', 's', 'a'))),
        ('\u{3064}', '\u{3043}') => Some(l1(ks3('t', 's', 'i'))),
        ('\u{3064}', '\u{3047}') => Some(l1(ks3('t', 's', 'e'))),
        ('\u{3064}', '\u{3049}') => Some(l1(ks3('t', 's', 'o'))),
        _ => None,
    }
}

/// The key stroke alternatives which type the two character spell `c1 c2` at once, in
/// dictionary order; `None` when it is not typed as a single chunk.
pub fn double_char_key_strokes(c1: char, c2: char) -> (r: Option<Vec<KeyStrokeString>>)
    ensures
        r is Some <==> spec_is_double_chunk(c1, c2),
        r matches Some(l) ==> wf_key_stroke_list(l@),
        r matches Some(l) ==> key_stroke_views(l@) == spec_double_char_key_strokes(c1, c2),
        standard_double_romanization(c1, c2) matches Some(w) ==> (r matches Some(l) && key_stroke_views(l@).contains(w)),
{
    proof {
        if standard_double_romanization(c1, c2) is Some {
            law_contracted_sound_typed_by_standard_romanization(c1, c2);
        }
    }
    let r = double_char_key_strokes_0(c1, c2);
    if r.is_some() {
        return r;
    }
    let r = double_char_key_strokes_1(c1, c2);
    if r.is_some() {
        return r;
    }
    let r = double_char_key_strokes_2(c1, c2);
    if r.is_some() {
        return r;
    }
    let r = double_char_key_strokes_3(c1, c2);
    if r.is_some() {
        return r;
    }
    None
}


/// The vowel of the column `i` of the syllabary: "a", "i", "u", "e", "o".
pub open spec fn vowel_of_column(i: int) -> char {
    if i == 0 {
        'a'
    } else if i == 1 {
        'i'
    } else if i == 2 {
        'u'
    } else if i == 3 {
        'e'
    } else {
        'o'
    }
}

/// The code `x` is that of a kana of the row whose first kana has the code `first`, the kana
/// of the row following each other every `step` codes.
pub open spec fn in_row(x: int, first: int, step: int) -> bool {
    first <= x <= first + 4 * step && (x - first) % step == 0
}

/// The standard romanization of the hiragana `c`, read off its place in the syllabary: the
/// consonant of its row followed by the vowel of its column (a small kana preceded by "x",
/// "ん" as "nn"); `None` for a character which is not such a kana.
pub open spec fn standard_romanization(c: char) -> Option<Seq<char>> {
    let x = c as u32 as int;
    if in_row(x, 0x3042, 2) {
        Some(seq![vowel_of_column((x - 0x3042) / 2)])
    } else if in_row(x, 0x3041, 2) {
        Some(seq!['x', vowel_of_column((x - 0x3041) / 2)])
    } else if in_row(x, 0x304b, 2) {
        Some(seq!['k', vowel_of_column((x - 0x304b) / 2)])
    } else if in_row(x, 0x304c, 2) {
        Some(seq!['g', vowel_of_column((x - 0x304c) / 2)])
    } else if in_row(x, 0x3055, 2) {
        Some(seq!['s', vowel_of_column((x - 0x3055) / 2)])
    } else if in_row(x, 0x3056, 2) {
        Some(seq!['z', vowel_of_column((x - 0x3056) / 2)])
    } else if x == 0x305f || x == 0x3061 {
        Some(seq!['t', vowel_of_column((x - 0x305f) / 2)])
    } else if x == 0x3064 || x == 0x3066 || x == 0x3068 {
        Some(seq!['t', vowel_of_column(2 + (x - 0x3064) / 2)])
    } else if x == 0x3060 || x == 0x3062 {
        Some(seq!['d', vowel_of_column((x - 0x3060) / 2)])
    } else if x == 0x3065 || x == 0x3067 || x == 0x3069 {
        Some(seq!['d', vowel_of_column(2 + (x - 0x3065) / 2)])
    } else if x == 0x3063 {
        Some(seq!['x', 't', 'u'])
    } else if in_row(x, 0x306a, 1) {
        Some(seq!['n', vowel_of_column(x - 0x306a)])
    } else if in_row(x, 0x306f, 3) {
        Some(seq!['h', vowel_of_column((x - 0x306f) / 3)])
    } else if in_row(x, 0x3070, 3) {
        Some(seq!['b', vowel_of_column((x - 0x3070) / 3)])
    } else if in_row(x, 0x3071, 3) {
        Some(seq!['p', vowel_of_column((x - 0x3071) / 3)])
    } else if in_row(x, 0x307e, 1) {
        Some(seq!['m', vowel_of_column(x - 0x307e)])
    } else if x == 0x3084 || x == 0x3086 || x == 0x3088 {
        Some(seq!['y', vowel_of_column(x - 0x3084)])
    } else if x == 0x3083 || x == 0x3085 || x == 0x3087 {
        Some(seq!['x', 'y', vowel_of_column(x - 0x3083)])
    } else if in_row(x, 0x3089, 1) {
        Some(seq!['r', vowel_of_column(x - 0x3089)])
    } else if x == 0x308f {
        Some(seq!['w', 'a'])
    } else if x == 0x3092 {
        Some(seq!['w', 'o'])
    } else if x == 0x308e {
        Some(seq!['x', 'w', 'a'])
    } else if x == 0x3093 {
        Some(seq!['n', 'n'])
    } else if x == 0x3094 {
        Some(seq!['v', 'u'])
    } else {
        None
    }
}

/// Every hiragana can be typed by its standard romanization: the consonant of its row and the
/// vowel of its column are among its key stroke alternatives.
pub proof fn law_kana_typed_by_standard_romanization(c: char)
    requires
        standard_romanization(c) is Some,
    ensures
        spec_single_char_key_strokes(c).contains(standard_romanization(c)->0),
{
    let x = c as u32 as int;
    if x == 0x3042 {
        assert(c == '\u{3042}');
        assert(spec_single_char_key_strokes(c)[0] =~= standard_romanization(c)->0);
    } else if x == 0x3044 {
        assert(c == '\u{3044}');
        assert(spec_single_char_key_strokes(c)[0] =~= standard_romanization(c)->0);
    } else if x == 0x3046 {
        assert(c == '\u{3046}');
        assert(spec_single_char_key_strokes(c)[0] =~= standard_romanization(c)->0);
    } else if x == 0x3048 {
        assert(c == '\u{3048}');
        assert(spec_single_char_key_strokes(c)[0] =~= standard_romanization(c)->0);
    } else if x == 0x304a {
        assert(c == '\u{304a}');
        assert(spec_single_char_key_strokes(c)[0] =~= standard_romanization(c)->0);
    } else if x == 0x3041 {
        assert(c == '\u{3041}');
        assert(spec_single_char_key_strokes(c)[1] =~= standard_romanization(c)->0);
    } else if x == 0x3043 {
        assert(c == '\u{3043}');
        assert(spec_single_char_key_strokes(c)[1] =~= standard_romanization(c)->0);
    } else if x == 0x3045 {
        assert(c == '\u{3045}');
        assert(spec_single_char_key_strokes(c)[1] =~= standard_romanization(c)->0);
    } else if x == 0x3047 {
        assert(c == '\u{3047}');
        assert(spec_single_char_key_strokes(c)[1] =~= standard_romanization(c)->0);
    } else if x == 0x3049 {
        assert(c == '\u{3049}');
        assert(spec_single_char_key_strokes(c)[1] =~= standard_romanization(c)->0);
    } else if x == 0x304b {
        assert(c == '\u{304b}');
        assert(spec_single_char_key_strokes(c)[0] =~= standard_romanization(c)->0);
    } else if x == 0x304d {
        assert(c == '\u{304d}');
        assert(spec_single_char_key_strokes(c)[0] =~= standard_romanization(c)->0);
    } else if x == 0x304f {
        assert(c == '\u{304f}');
        assert(spec_single_char_key_strokes(c)[0] =~= standard_romanization(c)->0);
    } else if x == 0x3051 {
        assert(c == '\u{3051}');
        assert(spec_single_char_key_strokes(c)[0] =~= standard_romanization(c)->0);
    } else if x == 0x3053 {
        assert(c == '\u{3053}');
        assert(spec_single_char_key_strokes(c)[0] =~= standard_romanization(c)->0);
    } else if x == 0x304c {
        assert(c == '\u{304c}');
        assert(spec_single_char_key_strokes(c)[0] =~= standard_romanization(c)->0);
    } else if x == 0x304e {
        assert(c == '\u{304e}');
        assert(spec_single_char_key_strokes(c)[0] =~= standard_romanization(c)->0);
    } else if x == 0x3050 {
        assert(c == '\u{3050}');
        assert(spec_single_char_key_strokes(c)[0] =~= standard_romanization(c)->0);
    } else if x == 0x3052 {
        assert(c == '\u{3052}');
        assert(spec_single_char_key_strokes(c)[0] =~= standard_romanization(c)->0);
    } else if x == 0x3054 {
        assert(c == '\u{3054}');
        assert(spec_single_char_key_strokes(c)[0] =~= standard_romanization(c)->0);
    } else if x == 0x3055 {
        assert(c == '\u{3055}');
        assert(spec_single_char_key_strokes(c)[0] =~= standard_romanization(c)->0);
    } else if x == 0x3057 {
        assert(c == '\u{3057}');
        assert(spec_single_char_key_strokes(c)[0] =~= standard_romanization(c)->0);
    } else if x == 0x3059 {
        assert(c == '\u{3059}');
        assert(spec_single_char_key_strokes(c)[0] =~= standard_romanization(c)->0);
    } else if x == 0x305b {
        assert(c == '\u{305b}');
        assert(spec_single_char_key_strokes(c)[0] =~= standard_romanization(c)->0);
    } else if x == 0x305d {
        assert(c == '\u{305d}');
        assert(spec_single_char_key_strokes(c)[0] =~= standard_romanization(c)->0);
    } else if x == 0x3056 {
        assert(c == '\u{3056}');
        assert(spec_single_char_key_strokes(c)[0] =~= standard_romanization(c)->0);
    } else if x == 0x3058 {
        assert(c == '\u{3058}');
        assert(spec_single_char_key_strokes(c)[0] =~= standard_romanization(c)->0);
    } else if x == 0x305a {
        assert(c == '\u{305a}');
        assert(spec_single_char_key_strokes(c)[0] =~= standard_romanization(c)->0);
    } else if x == 0x305c {
        assert(c == '\u{305c}');
        assert(spec_single_char_key_strokes(c)[0] =~= standard_romanization(c)->0);
    } else if x == 0x305e {
        assert(c == '\u{305e}');
        assert(spec_single_char_key_strokes(c)[0] =~= standard_romanization(c)->0);
    } else if x == 0x305f {
        assert(c == '\u{305f}');
        assert(spec_single_char_key_strokes(c)[0] =~= standard_romanization(c)->0);
    } else if x == 0x3061 {
        assert(c == '\u{3061}');
        assert(spec_single_char_key_strokes(c)[0] =~= standard_romanization(c)->0);
    } else if x == 0x3064 {
        assert(c == '\u{3064}');
        assert(spec_single_char_key_strokes(c)[0] =~= standard_romanization(c)->0);
    } else if x == 0x3066 {
        assert(c == '\u{3066}');
        assert(spec_single_char_key_strokes(c)[0] =~= standard_romanization(c)->0);
    } else if x == 0x3068 {
        assert(c == '\u{3068}');
        assert(spec_single_char_key_strokes(c)[0] =~= standard_romanization(c)->0);
    } else if x == 0x3060 {
        assert(c == '\u{3060}');
        assert(spec_single_char_key_strokes(c)[0] =~= standard_romanization(c)->0);
    } else if x == 0x3062 {
        assert(c == '\u{3062}');
        assert(spec_single_char_key_strokes(c)[0] =~= standard_romanization(c)->0);
    } else if x == 0x3065 {
        assert(c == '\u{3065}');
        assert(spec_single_char_key_strokes(c)[0] =~= standard_romanization(c)->0);
    } else if x == 0x3067 {
        assert(c == '\u{3067}');
        assert(spec_single_char_key_strokes(c)[0] =~= standard_romanization(c)->0);
    } else if x == 0x3069 {
        assert(c == '\u{3069}');
        assert(spec_single_char_key_strokes(c)[0] =~= standard_romanization(c)->0);
    } else if x == 0x3063 {
        assert(c == '\u{3063}');
        assert(spec_single_char_key_strokes(c)[1] =~= standard_romanization(c)->0);
    } else if x == 0x306a {
        assert(c == '\u{306a}');
        assert(spec_single_char_key_strokes(c)[0] =~= standard_romanization(c)->0);
    } else if x == 0x306b {
        assert(c == '\u{306b}');
        assert(spec_single_char_key_strokes(c)[0] =~= standard_romanization(c)->0);
    } else if x == 0x306c {
        assert(c == '\u{306c}');
        assert(spec_single_char_key_strokes(c)[0] =~= standard_romanization(c)->0);
    } else if x == 0x306d {
        assert(c == '\u{306d}');
        assert(spec_single_char_key_strokes(c)[0] =~= standard_romanization(c)->0);
    } else if x == 0x306e {
        assert(c == '\u{306e}');
        assert(spec_single_char_key_strokes(c)[0] =~= standard_romanization(c)->0);
    } else if x == 0x306f {
        assert(c == '\u{306f}');
        assert(spec_single_char_key_strokes(c)[0] =~= standard_romanization(c)->0);
    } else if x == 0x3072 {
        assert(c == '\u{3072}');
        assert(spec_single_char_key_strokes(c)[0] =~= standard_romanization(c)->0);
    } else if x == 0x3075 {
        assert(c == '\u{3075}');
        assert(spec_single_char_key_strokes(c)[0] =~= standard_romanization(c)->0);
    } else if x == 0x3078 {
        assert(c == '\u{3078}');
        assert(spec_single_char_key_strokes(c)[0] =~= standard_romanization(c)->0);
    } else if x == 0x307b {
        assert(c == '\u{307b}');
        assert(spec_single_char_key_strokes(c)[0] =~= standard_romanization(c)->0);
    } else if x == 0x3070 {
        assert(c == '\u{3070}');
        assert(spec_single_char_key_strokes(c)[0] =~= standard_romanization(c)->0);
    } else if x == 0x3073 {
        assert(c == '\u{3073}');
        assert(spec_single_char_key_strokes(c)[0] =~= standard_romanization(c)->0);
    } else if x == 0x3076 {
        assert(c == '\u{3076}');
        assert(spec_single_char_key_strokes(c)[0] =~= standard_romanization(c)->0);
    } else if x == 0x3079 {
        assert(c == '\u{3079}');
        assert(spec_single_char_key_strokes(c)[0] =~= standard_romanization(c)->0);
    } else if x == 0x307c {
        assert(c == '\u{307c}');
        assert(spec_single_char_key_strokes(c)[0] =~= standard_romanization(c)->0);
    } else if x == 0x3071 {
        assert(c == '\u{3071}');
        assert(spec_single_char_key_strokes(c)[0] =~= standard_romanization(c)->0);
    } else if x == 0x3074 {
        assert(c == '\u{3074}');
        assert(spec_single_char_key_strokes(c)[0] =~= standard_romanization(c)->0);
    } else if x == 0x3077 {
        assert(c == '\u{3077}');
        assert(spec_single_char_key_strokes(c)[0] =~= standard_romanization(c)->0);
    } else if x == 0x307a {
        assert(c == '\u{307a}');
        assert(spec_single_char_key_strokes(c)[0] =~= standard_romanization(c)->0);
    } else if x == 0x307d {
        assert(c == '\u{307d}');
        assert(spec_single_char_key_strokes(c)[0] =~= standard_romanization(c)->0);
    } else if x == 0x307e {
        assert(c == '\u{307e}');
        assert(spec_single_char_key_strokes(c)[0] =~= standard_romanization(c)->0);
    } else if x == 0x307f {
        assert(c == '\u{307f}');
        assert(spec_single_char_key_strokes(c)[0] =~= standard_romanization(c)->0);
    } else if x == 0x3080 {
        assert(c == '\u{3080}');
        assert(spec_single_char_key_strokes(c)[0] =~= standard_romanization(c)->0);
    } else if x == 0x3081 {
        assert(c == '\u{3081}');
        assert(spec_single_char_key_strokes(c)[0] =~= standard_romanization(c)->0);
    } else if x == 0x3082 {
        assert(c == '\u{3082}');
        assert(spec_single_char_key_strokes(c)[0] =~= standard_romanization(c)->0);
    } else if x == 0x3084 {
        assert(c == '\u{3084}');
        assert(spec_single_char_key_strokes(c)[0] =~= standard_romanization(c)->0);
    } else if x == 0x3086 {
        assert(c == '\u{3086}');
        assert(spec_single_char_key_strokes(c)[0] =~= standard_romanization(c)->0);
    } else if x == 0x3088 {
        assert(c == '\u{3088}');
        assert(spec_single_char_key_strokes(c)[0] =~= standard_romanization(c)->0);
    } else if x == 0x3083 {
        assert(c == '\u{3083}');
        assert(spec_single_char_key_strokes(c)[1] =~= standard_romanization(c)->0);
    } else if x == 0x3085 {
        assert(c == '\u{3085}');
        assert(spec_single_char_key_strokes(c)[1] =~= standard_romanization(c)->0);
    } else if x == 0x3087 {
        assert(c == '\u{3087}');
        assert(spec_single_char_key_strokes(c)[1] =~= standard_romanization(c)->0);
    } else if x == 0x3089 {
        assert(c == '\u{3089}');
        assert(spec_single_char_key_strokes(c)[0] =~= standard_romanization(c)->0);
    } else if x == 0x308a {
        assert(c == '\u{308a}');
        assert(spec_single_char_key_strokes(c)[0] =~= standard_romanization(c)->0);
    } else if x == 0x308b {
        assert(c == '\u{308b}');
        assert(spec_single_char_key_strokes(c)[0] =~= standard_romanization(c)->0);
    } else if x == 0x308c {
        assert(c == '\u{308c}');
        assert(spec_single_char_key_strokes(c)[0] =~= standard_romanization(c)->0);
    } else if x == 0x308d {
        assert(c == '\u{308d}');
        assert(spec_single_char_key_strokes(c)[0] =~= standard_romanization(c)->0);
    } else if x == 0x308f {
        assert(c == '\u{308f}');
        assert(spec_single_char_key_strokes(c)[0] =~= standard_romanization(c)->0);
    } else if x == 0x3092 {
        assert(c == '\u{3092}');
        assert(spec_single_char_key_strokes(c)[0] =~= standard_romanization(c)->0);
    } else if x == 0x308e {
        assert(c == '\u{308e}');
        assert(spec_single_char_key_strokes(c)[1] =~= standard_romanization(c)->0);
    } else if x == 0x3093 {
        assert(c == '\u{3093}');
        assert(spec_single_char_key_strokes(c)[1] =~= standard_romanization(c)->0);
    } else if x == 0x3094 {
        assert(c == '\u{3094}');
        assert(spec_single_char_key_strokes(c)[0] =~= standard_romanization(c)->0);
    }
}


/// The standard romanization of the two character chunk `c1 c2` of a kana of the "i" column
/// and a small "ya", "yu" or "yo": the consonant of the first, "y" and the vowel of the second;
/// `None` for other characters.
pub open spec fn standard_double_romanization(c1: char, c2: char) -> Option<Seq<char>> {
    match (standard_romanization(c1), standard_romanization(c2)) {
        (Some(r1), Some(r2)) => if r1.len() == 2 && r1[0] != 'x' && r1[1] == 'i' && r2.len() == 3 && r2[0] == 'x' && r2[1] == 'y' {
            Some(seq![r1[0], 'y', r2[2]])
        } else {
            None
        },
        _ => None,
    }
}

/// A kana of the "i" column followed by a small "ya", "yu" or "yo" is typed at once by its
/// standard romanization: the consonant of the first, "y" and the vowel of the second.
pub proof fn law_contracted_sound_typed_by_standard_romanization(c1: char, c2: char)
    requires
        standard_double_romanization(c1, c2) is Some,
    ensures
        spec_is_double_chunk(c1, c2),
        spec_double_char_key_strokes(c1, c2).contains(standard_double_romanization(c1, c2)->0),
{
    let x1 = c1 as u32 as int;
    let x2 = c2 as u32 as int;
    if x1 == 0x304d && x2 == 0x3083 {
        assert(c1 == '\u{304d}' && c2 == '\u{3083}');
        assert(spec_double_char_key_strokes(c1, c2)[0] =~= standard_double_romanization(c1, c2)->0);
    } else if x1 == 0x304d && x2 == 0x3085 {
        assert(c1 == '\u{304d}' && c2 == '\u{3085}');
        assert(spec_double_char_key_strokes(c1, c2)[0] =~= standard_double_romanization(c1, c2)->0);
    } else if x1 == 0x304d && x2 == 0x3087 {
        assert(c1 == '\u{304d}' && c2 == '\u{3087}');
        assert(spec_double_char_key_strokes(c1, c2)[0] =~= standard_double_romanization(c1, c2)->0);
    } else if x1 == 0x304e && x2 == 0x3083 {
        assert(c1 == '\u{304e}' && c2 == '\u{3083}');
        assert(spec_double_char_key_strokes(c1, c2)[0] =~= standard_double_romanization(c1, c2)->0);
    } else if x1 == 0x304e && x2 == 0x3085 {
        assert(c1 == '\u{304e}' && c2 == '\u{3085}');
        assert(spec_double_char_key_strokes(c1, c2)[0] =~= standard_double_romanization(c1, c2)->0);
    } else if x1 == 0x304e && x2 == 0x3087 {
        assert(c1 == '\u{304e}' && c2 == '\u{3087}');
        assert(spec_double_char_key_strokes(c1, c2)[0] =~= standard_double_romanization(c1, c2)->0);
    } else if x1 == 0x3057 && x2 == 0x3083 {
        assert(c1 == '\u{3057}' && c2 == '\u{3083}');
        assert(spec_double_char_key_strokes(c1, c2)[0] =~= standard_double_romanization(c1, c2)->0);
    } else if x1 == 0x3057 && x2 == 0x3085 {
        assert(c1 == '\u{3057}' && c2 == '\u{3085}');
        assert(spec_double_char_key_strokes(c1, c2)[0] =~= standard_double_romanization(c1, c2)->0);
    } else if x1 == 0x3057 && x2 == 0x3087 {
        assert(c1 == '\u{3057}' && c2 == '\u{3087}');
        assert(spec_double_char_key_strokes(c1, c2)[0] =~= standard_double_romanization(c1, c2)->0);
    } else if x1 == 0x3058 && x2 == 0x3083 {
        assert(c1 == '\u{3058}' && c2 == '\u{3083}');
        assert(spec_double_char_key_strokes(c1, c2)[0] =~= standard_double_romanization(c1, c2)->0);
    } else if x1 == 0x3058 && x2 == 0x3085 {
        assert(c1 == '\u{3058}' && c2 == '\u{3085}');
        assert(spec_double_char_key_strokes(c1, c2)[0] =~= standard_double_romanization(c1, c2)->0);
    } else if x1 == 0x3058 && x2 == 0x3087 {
        assert(c1 == '\u{3058}' && c2 == '\u{3087}');
        assert(spec_double_char_key_strokes(c1, c2)[0] =~= standard_double_romanization(c1, c2)->0);
    } else if x1 == 0x3061 && x2 == 0x3083 {
        assert(c1 == '\u{3061}' && c2 == '\u{3083}');
        assert(spec_double_char_key_strokes(c1, c2)[0] =~= standard_double_romanization(c1, c2)->0);
    } else if x1 == 0x3061 && x2 == 0x3085 {
        assert(c1 == '\u{3061}' && c2 == '\u{3085}');
        assert(spec_double_char_key_strokes(c1, c2)[0] =~= standard_double_romanization(c1, c2)->0);
    } else if x1 == 0x3061 && x2 == 0x3087 {
        assert(c1 == '\u{3061}' && c2 == '\u{3087}');
        assert(spec_double_char_key_strokes(c1, c2)[0] =~= standard_double_romanization(c1, c2)->0);
    } else if x1 == 0x3062 && x2 == 0x3083 {
        assert(c1 == '\u{3062}' && c2 == '\u{3083}');
        assert(spec_double_char_key_strokes(c1, c2)[0] =~= standard_double_romanization(c1, c2)->0);
    } else if x1 == 0x3062 && x2 == 0x3085 {
        assert(c1 == '\u{3062}' && c2 == '\u{3085}');
        assert(spec_double_char_key_strokes(c1, c2)[0] =~= standard_double_romanization(c1, c2)->0);
    } else if x1 == 0x3062 && x2 == 0x3087 {
        assert(c1 == '\u{3062}' && c2 == '\u{3087}');
        assert(spec_double_char_key_strokes(c1, c2)[0] =~= standard_double_romanization(c1, c2)->0);
    } else if x1 == 0x306b && x2 == 0x3083 {
        assert(c1 == '\u{306b}' && c2 == '\u{3083}');
        assert(spec_double_char_key_strokes(c1, c2)[0] =~= standard_double_romanization(c1, c2)->0);
    } else if x1 == 0x306b && x2 == 0x3085 {
        assert(c1 == '\u{306b}' && c2 == '\u{3085}');
        assert(spec_double_char_key_strokes(c1, c2)[0] =~= standard_double_romanization(c1, c2)->0);
    } else if x1 == 0x306b && x2 == 0x3087 {
        assert(c1 == '\u{306b}' && c2 == '\u{3087}');
        assert(spec_double_char_key_strokes(c1, c2)[0] =~= standard_double_romanization(c1, c2)->0);
    } else if x1 == 0x3072 && x2 == 0x3083 {
        assert(c1 == '\u{3072}' && c2 == '\u{3083}');
        assert(spec_double_char_key_strokes(c1, c2)[0] =~= standard_double_romanization(c1, c2)->0);
    } else if x1 == 0x3072 && x2 == 0x3085 {
        assert(c1 == '\u{3072}' && c2 == '\u{3085}');
        assert(spec_double_char_key_strokes(c1, c2)[0] =~= standard_double_romanization(c1, c2)->0);
    } else if x1 == 0x3072 && x2 == 0x3087 {
        assert(c1 == '\u{3072}' && c2 == '\u{3087}');
        assert(spec_double_char_key_strokes(c1, c2)[0] =~= standard_double_romanization(c1, c2)->0);
    } else if x1 == 0x3073 && x2 == 0x3083 {
        assert(c1 == '\u{3073}' && c2 == '\u{3083}');
        assert(spec_double_char_key_strokes(c1, c2)[0] =~= standard_double_romanization(c1, c2)->0);
    } else if x1 == 0x3073 && x2 == 0x3085 {
        assert(c1 == '\u{3073}' && c2 == '\u{3085}');
        assert(spec_double_char_key_strokes(c1, c2)[0] =~= standard_double_romanization(c1, c2)->0);
    } else if x1 == 0x3073 && x2 == 0x3087 {
        assert(c1 == '\u{3073}' && c2 == '\u{3087}');
        assert(spec_double_char_key_strokes(c1, c2)[0] =~= standard_double_romanization(c1, c2)->0);
    } else if x1 == 0x3074 && x2 == 0x3083 {
        assert(c1 == '\u{3074}' && c2 == '\u{3083}');
        assert(spec_double_char_key_strokes(c1, c2)[0] =~= standard_double_romanization(c1, c2)->0);
    } else if x1 == 0x3074 && x2 == 0x3085 {
        assert(c1 == '\u{3074}' && c2 == '\u{3085}');
        assert(spec_double_char_key_strokes(c1, c2)[0] =~= standard_double_romanization(c1, c2)->0);
    } else if x1 == 0x3074 && x2 == 0x3087 {
        assert(c1 == '\u{3074}' && c2 == '\u{3087}');
        assert(spec_double_char_key_strokes(c1, c2)[0] =~= standard_double_romanization(c1, c2)->0);
    } else if x1 == 0x307f && x2 == 0x3083 {
        assert(c1 == '\u{307f}' && c2 == '\u{3083}');
        assert(spec_double_char_key_strokes(c1, c2)[0] =~= standard_double_romanization(c1, c2)->0);
    } else if x1 == 0x307f && x2 == 0x3085 {
        assert(c1 == '\u{307f}' && c2 == '\u{3085}');
        assert(spec_double_char_key_strokes(c1, c2)[0] =~= standard_double_romanization(c1, c2)->0);
    } else if x1 == 0x307f && x2 == 0x3087 {
        assert(c1 == '\u{307f}' && c2 == '\u{3087}');
        assert(spec_double_char_key_strokes(c1, c2)[0] =~= standard_double_romanization(c1, c2)->0);
    } else if x1 == 0x308a && x2 == 0x3083 {
        assert(c1 == '\u{308a}' && c2 == '\u{3083}');
        assert(spec_double_char_key_strokes(c1, c2)[0] =~= standard_double_romanization(c1, c2)->0);
    } else if x1 == 0x308a && x2 == 0x3085 {
        assert(c1 == '\u{308a}' && c2 == '\u{3085}');
        assert(spec_double_char_key_strokes(c1, c2)[0] =~= standard_double_romanization(c1, c2)->0);
    } else if x1 == 0x308a && x2 == 0x3087 {
        assert(c1 == '\u{308a}' && c2 == '\u{3087}');
        assert(spec_double_char_key_strokes(c1, c2)[0] =~= standard_double_romanization(c1, c2)->0);
    }
}


/// A full-width ASCII symbol of the dictionary is typed by the ASCII character it is the
/// full-width form of, whose code is `0xfee0` below its own.
pub proof fn law_full_width_symbol_typed_by_its_ascii(c: char)
    requires
        0xff01 <= c as u32 <= 0xff5e,
        spec_single_char_key_strokes(c).len() > 0,
    ensures
        spec_single_char_key_strokes(c)[0].len() == 1,
        spec_single_char_key_strokes(c)[0][0] as u32 == c as u32 - 0xfee0,
{
    let x = c as u32 as int;
    if x == 0xff01 {
        assert(c == '\u{ff01}');
        } else if x == 0xff03 {
        assert(c == '\u{ff03}');
        } else if x == 0xff04 {
        assert(c == '\u{ff04}');
        } else if x == 0xff05 {
        assert(c == '\u{ff05}');
        } else if x == 0xff06 {
        assert(c == '\u{ff06}');
        } else if x == 0xff08 {
        assert(c == '\u{ff08}');
        } else if x == 0xff09 {
        assert(c == '\u{ff09}');
        } else if x == 0xff0a {
        assert(c == '\u{ff0a}');
        } else if x == 0xff0b {
        assert(c == '\u{ff0b}');
        } else if x == 0xff0f {
        assert(c == '\u{ff0f}');
        } else if x == 0xff1a {
        assert(c == '\u{ff1a}');
        } else if x == 0xff1b {
        assert(c == '\u{ff1b}');
        } else if x == 0xff1c {
        assert(c == '\u{ff1c}');
        } else if x == 0xff1d {
        assert(c == '\u{ff1d}');
        } else if x == 0xff1e {
        assert(c == '\u{ff1e}');
        } else if x == 0xff1f {
        assert(c == '\u{ff1f}');
        } else if x == 0xff20 {
        assert(c == '\u{ff20}');
        } else if x == 0xff3e {
        assert(c == '\u{ff3e}');
        } else if x == 0xff3f {
        assert(c == '\u{ff3f}');
        } else if x == 0xff40 {
        assert(c == '\u{ff40}');
        } else if x == 0xff5b {
        assert(c == '\u{ff5b}');
        } else if x == 0xff5c {
        assert(c == '\u{ff5c}');
        } else if x == 0xff5d {
        assert(c == '\u{ff5d}');
    }
}

} // verus!
