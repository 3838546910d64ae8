//! Key strokes: characters which can be typed, strings of them, and actual strokes.
use vstd::prelude::*;

use crate::primitives::Duration;
use crate::text::{chars_to_string, str_to_chars};
use crate::utility::{is_displayable_ascii, spec_is_displayable_ascii};

verus! {

/// A character which can be used as a key stroke: a displayable ASCII character.
#[derive(Debug, Clone, Copy, PartialEq, Eq, Hash, PartialOrd, Ord)]
pub struct KeyStrokeChar(char);

/// The error of converting a character which cannot be typed into a [`KeyStrokeChar`].
#[derive(Debug, Clone, Copy, PartialEq, Eq)]
pub struct KeyStrokeCharError;

impl KeyStrokeCharError {
    /// A description of the error.
    pub fn message(&self) -> (r: String)
        ensures
            r@ == "cannot use as a key stroke"@,
    {
        let v = str_to_chars("cannot use as a key stroke");
        chars_to_string(v.as_slice())
    }
}

impl KeyStrokeChar {
    #[verifier::type_invariant]
    spec fn inv(self) -> bool {
        spec_is_displayable_ascii(self.0)
    }

    /// The character of this key stroke.
    pub closed spec fn spec_char(self) -> char {
        self.0
    }

    /// Returns the key stroke of `c` when `c` is displayable ASCII.
    pub fn new(c: char) -> (r: Result<Self, KeyStrokeCharError>)
        ensures
            spec_is_displayable_ascii(c) <==> r is Ok,
            r matches Ok(k) ==> k.spec_char() == c,
    {
        if is_displayable_ascii(c) {
            Ok(KeyStrokeChar(c))
        } else {
            Err(KeyStrokeCharError)
        }
    }

    /// Returns the character of this key stroke, which is displayable ASCII.
    pub fn to_char(&self) -> (r: char)
        ensures
            r == self.spec_char(),
            spec_is_displayable_ascii(r),
    {
        proof {
            use_type_invariant(self);
        }
        self.0
    }

    /// Whether this key stroke is the character `c`.
    pub fn is_char(&self, c: char) -> (r: bool)
        ensures
            r == (self.spec_char() == c),
    {
        self.0 == c
    }

    /// Whether two key strokes are the same character.
    pub fn same_as(&self, other: &Self) -> (r: bool)
        ensures
            r == (self.spec_char() == other.spec_char()),
            r == (*self == *other),
    {
        self.0 == other.0
    }
}

impl TryFrom<char> for KeyStrokeChar {
    type Error = KeyStrokeCharError;

    fn try_from(value: char) -> (r: Result<Self, Self::Error>) {
        if is_displayable_ascii(value) {
            Ok(KeyStrokeChar(value))
        } else {
            Err(KeyStrokeCharError)
        }
    }
}

impl vstd::std_specs::convert::TryFromSpecImpl<char> for KeyStrokeChar {
    open spec fn obeys_try_from_spec() -> bool {
        true
    }

    closed spec fn try_from_spec(v: char) -> Result<Self, KeyStrokeCharError> {
        if spec_is_displayable_ascii(v) {
            Ok(KeyStrokeChar(v))
        } else {
            Err(KeyStrokeCharError)
        }
    }
}

/// A string made only of key stroke characters.
#[derive(Debug, PartialEq, Eq, Hash)]
pub struct KeyStrokeString(Vec<char>);

impl Clone for KeyStrokeString {
    fn clone(&self) -> (r: Self)
        ensures
            r@ == self@,
    {
        self.duplicate()
    }
}

/// The error of converting a string which holds a character that cannot be typed.
#[derive(Debug, Clone, Copy, PartialEq, Eq)]
pub struct KeyStrokeStringError {
    pub c: char,
}

impl KeyStrokeStringError {
    /// The character that cannot be typed.
    pub fn offending_char(&self) -> (r: char)
        ensures
            r == self.c,
    {
        self.c
    }

    /// A description of the error, naming the character.
    pub fn message(&self) -> (r: String)
        ensures
            r@ == seq!['`', self.c] + "` cannot be used as a key stroke"@,
    {
        let mut v: Vec<char> = Vec::new();
        v.push('`');
        v.push(self.c);
        let mut rest = str_to_chars("` cannot be used as a key stroke");
        let ghost head = v@;
        v.append(&mut rest);
        assert(head =~= seq!['`', self.c]);
        chars_to_string(v.as_slice())
    }
}

/// Whether every character of `s` is displayable ASCII.
pub open spec fn all_displayable_ascii(s: Seq<char>) -> bool {
    forall|i: int| 0 <= i < s.len() ==> spec_is_displayable_ascii(#[trigger] s[i])
}

impl View for KeyStrokeString {
    type V = Seq<char>;

    closed spec fn view(&self) -> Seq<char> {
        self.0@
    }
}

impl KeyStrokeString {
    #[verifier::type_invariant]
    spec fn inv(self) -> bool {
        all_displayable_ascii(self.0@)
    }

    /// Returns the key stroke string of `chars` when every character of it is displayable
    /// ASCII; otherwise the error names the first character which is not.
    pub fn from_chars(chars: Vec<char>) -> (r: Result<Self, KeyStrokeStringError>)
        ensures
            all_displayable_ascii(chars@) <==> r is Ok,
            r matches Ok(s) ==> s@ == chars@,
            r matches Err(e) ==> exists|i: int|
                0 <= i < chars@.len() && chars@[i] == e.c && !spec_is_displayable_ascii(chars@[i])
                    && all_displayable_ascii(chars@.subrange(0, i)),
    {
        let mut i: usize = 0;
        while i < chars.len()
            invariant
                i <= chars@.len(),
                all_displayable_ascii(chars@.subrange(0, i as int)),
            decreases chars@.len() - i,
        {
            if !is_displayable_ascii(chars[i]) {
                return Err(KeyStrokeStringError { c: chars[i] });
            }
            assert(chars@.subrange(0, i + 1) =~= chars@.subrange(0, i as int).push(chars@[i as int]));
            i = i + 1;
        }
        assert(chars@.subrange(0, chars@.len() as int) =~= chars@);
        Ok(KeyStrokeString(chars))
    }

    /// The key stroke string made of the single character `c`.
    pub fn single(c: char) -> (r: Self)
        requires
            spec_is_displayable_ascii(c),
        ensures
            r@ == seq![c],
    {
        let mut v: Vec<char> = Vec::new();
        v.push(c);
        assert(v@ =~= seq![c]);
        KeyStrokeString(v)
    }

    /// This key stroke string followed by the character `c`.
    pub fn pushed(self, c: char) -> (r: Self)
        requires
            spec_is_displayable_ascii(c),
        ensures
            r@ == self@.push(c),
    {
        proof {
            use_type_invariant(&self);
        }
        let mut v = self.0;
        v.push(c);
        KeyStrokeString(v)
    }

    /// A copy of this key stroke string.
    pub fn duplicate(&self) -> (r: Self)
        ensures
            r@ == self@,
    {
        proof {
            use_type_invariant(self);
        }
        KeyStrokeString(self.0.clone())
    }

    /// The characters of this key stroke string, all displayable ASCII.
    pub fn as_chars(&self) -> (r: &Vec<char>)
        ensures
            r@ == self@,
            all_displayable_ascii(r@),
    {
        proof {
            use_type_invariant(self);
        }
        &self.0
    }

    /// Number of key strokes of this string.
    pub fn len(&self) -> (r: usize)
        ensures
            r == self@.len(),
    {
        self.0.len()
    }

    /// The key stroke at `index`.
    pub fn key_stroke_char_at(&self, index: usize) -> (r: KeyStrokeChar)
        requires
            index < self@.len(),
        ensures
            r.spec_char() == self@[index as int],
    {
        proof {
            use_type_invariant(self);
        }
        KeyStrokeChar(self.0[index])
    }

    /// The key strokes of this string, in order.
    pub fn key_stroke_chars(&self) -> (r: Vec<KeyStrokeChar>)
        ensures
            r@.len() == self@.len(),
            forall|i: int| 0 <= i < r@.len() ==> (#[trigger] r@[i]).spec_char() == self@[i],
    {
        let mut r: Vec<KeyStrokeChar> = Vec::new();
        let mut i: usize = 0;
        while i < self.len()
            invariant
                i <= self@.len(),
                r@.len() == i,
                forall|j: int| 0 <= j < i ==> (#[trigger] r@[j]).spec_char() == self@[j],
            decreases self@.len() - i,
        {
            r.push(self.key_stroke_char_at(i));
            i = i + 1;
        }
        r
    }

    /// The first `count` key strokes of this string (all of it when it is shorter).
    pub fn prefix(&self, count: usize) -> (r: Self)
        ensures
            r@ == if count <= self@.len() { self@.subrange(0, count as int) } else { self@ },
    {
        proof {
            use_type_invariant(self);
        }
        let n = if count <= self.0.len() { count } else { self.0.len() };
        let mut v: Vec<char> = Vec::new();
        let mut i: usize = 0;
        while i < n
            invariant
                n <= self@.len(),
                i <= n,
                v@ == self@.subrange(0, i as int),
            decreases n - i,
        {
            v.push(self.0[i]);
            i = i + 1;
            assert(v@ =~= self@.subrange(0, i as int));
        }
        assert(n == self@.len() ==> self@.subrange(0, n as int) =~= self@);
        KeyStrokeString(v)
    }

    /// The concatenation of two key stroke strings.
    pub fn concat(&self, other: &Self) -> (r: Self)
        ensures
            r@ == self@ + other@,
    {
        proof {
            use_type_invariant(self);
            use_type_invariant(other);
        }
        let mut v = self.0.clone();
        let mut i: usize = 0;
        while i < other.0.len()
            invariant
                i <= other@.len(),
                v@ == self@ + other@.subrange(0, i as int),
            decreases other@.len() - i,
        {
            v.push(other.0[i]);
            i = i + 1;
            assert(v@ =~= self@ + other@.subrange(0, i as int));
        }
        assert(other@.subrange(0, other@.len() as int) =~= other@);
        KeyStrokeString(v)
    }

    /// Whether two key stroke strings hold the same characters.
    pub fn same_as(&self, other: &Self) -> (r: bool)
        ensures
            r == (self@ == other@),
    {
        if self.0.len() != other.0.len() {
            return false;
        }
        let mut i: usize = 0;
        while i < self.0.len()
            invariant
                self@.len() == other@.len(),
                i <= self@.len(),
                forall|j: int| 0 <= j < i ==> self@[j] == other@[j],
            decreases self@.len() - i,
        {
            if self.0[i] != other.0[i] {
                return false;
            }
            i = i + 1;
        }
        assert(self@ =~= other@);
        true
    }

    /// This key stroke string as a `String`.
    pub fn to_string(&self) -> (r: String)
        ensures
            r@ == self@,
    {
        crate::text::chars_to_string(self.0.as_slice())
    }
}

impl TryFrom<String> for KeyStrokeString {
    type Error = KeyStrokeStringError;

    fn try_from(value: String) -> (r: Result<Self, Self::Error>)
        ensures
            all_displayable_ascii(value@) <==> r is Ok,
            r matches Ok(s) ==> s@ == value@,
            r matches Err(e) ==> exists|i: int|
                0 <= i < value@.len() && value@[i] == e.c && !spec_is_displayable_ascii(value@[i])
                    && all_displayable_ascii(value@.subrange(0, i)),
    {
        Self::from_chars(crate::text::str_to_chars(value.as_str()))
    }
}

impl vstd::std_specs::convert::TryFromSpecImpl<String> for KeyStrokeString {
    open spec fn obeys_try_from_spec() -> bool {
        false
    }

    /// Not used: the conversion is described by the `ensures` of [`KeyStrokeString::from_chars`].
    open spec fn try_from_spec(v: String) -> Result<Self, KeyStrokeStringError> {
        Err(KeyStrokeStringError { c: ' ' })
    }
}

/// A key stroke typed during typing.
#[derive(Debug, Clone, Copy, PartialEq, Eq, Hash)]
pub struct ActualKeyStroke {
    /// Elapsed time from the start of typing until this key stroke.
    elapsed_time: Duration,
    key_stroke: KeyStrokeChar,
    is_correct: bool,
}

impl ActualKeyStroke {
    pub closed spec fn spec_elapsed_time(self) -> Duration {
        self.elapsed_time
    }

    pub closed spec fn spec_key_stroke(self) -> KeyStrokeChar {
        self.key_stroke
    }

    pub closed spec fn spec_is_correct(self) -> bool {
        self.is_correct
    }

    /// The key stroke `key_stroke` typed at `elapsed_time`, correct or not.
    pub closed spec fn spec_new(elapsed_time: Duration, key_stroke: KeyStrokeChar, is_correct: bool) -> Self {
        ActualKeyStroke { elapsed_time, key_stroke, is_correct }
    }

    pub fn new(elapsed_time: Duration, key_stroke: KeyStrokeChar, is_correct: bool) -> (r: Self)
        ensures
            r == Self::spec_new(elapsed_time, key_stroke, is_correct),
            r.spec_elapsed_time() == elapsed_time,
            r.spec_key_stroke() == key_stroke,
            r.spec_is_correct() == is_correct,
    {
        ActualKeyStroke { elapsed_time, key_stroke, is_correct }
    }

    pub fn elapsed_time(&self) -> (r: Duration)
        ensures
            r == self.spec_elapsed_time(),
    {
        self.elapsed_time
    }

    pub fn key_stroke(&self) -> (r: KeyStrokeChar)
        ensures
            r == self.spec_key_stroke(),
    {
        self.key_stroke
    }

    pub fn is_correct(&self) -> (r: bool)
        ensures
            r == self.spec_is_correct(),
    {
        self.is_correct
    }
}

/// Whether a key stroke was correct or wrong.
#[derive(Debug, Clone, Copy, PartialEq, Eq, Hash)]
pub enum KeyStrokeHitMiss {
    Correct,
    Wrong,
}

} // verus!
