//! Spells: the readings of vocabularies, made of ASCII, hiragana and Japanese symbols.
use vstd::prelude::*;

use crate::utility::{
    is_displayable_ascii, is_hiragana, is_japanese_symbol, spec_is_displayable_ascii,
    spec_is_hiragana, spec_is_japanese_symbol,
};

verus! {

/// Whether `c` can be used in a spell: displayable ASCII, hiragana or a Japanese symbol.
pub open spec fn spec_usable_in_spell(c: char) -> bool {
    spec_is_displayable_ascii(c) || spec_is_hiragana(c) || spec_is_japanese_symbol(c)
}

/// Whether every character of `s` can be used in a spell.
pub open spec fn all_usable_in_spell(s: Seq<char>) -> bool {
    forall|i: int| 0 <= i < s.len() ==> spec_usable_in_spell(#[trigger] s[i])
}

/// Whether some character of `s` is displayable ASCII.
pub open spec fn spec_contains_displayable_ascii(s: Seq<char>) -> bool {
    exists|i: int| 0 <= i < s.len() && spec_is_displayable_ascii(#[trigger] s[i])
}

/// Checks whether a character can be used in a spell.
pub fn usable_in_spell_string(c: char) -> (r: bool)
    ensures
        r == spec_usable_in_spell(c),
{
    is_displayable_ascii(c) || is_hiragana(c) || is_japanese_symbol(c)
}

/// A string which only contains characters usable as spells.
///
/// Characters usable as spells are
/// * a displayable ASCII character (`U+20` ~ `U+7E`),
/// * a Japanese hiragana (`U+3041` ~ `U+308F`, `U+3092` ~ `U+3094`),
/// * a Japanese symbol.
#[derive(Debug, PartialEq, Eq, Hash)]
pub struct SpellString(Vec<char>);

/// The error of converting a string which holds a character that cannot be used in a spell.
#[derive(Debug, Clone, Copy, PartialEq, Eq)]
pub struct SpellStringError {
    pub c: char,
}

impl SpellStringError {
    /// A description of the error, naming the character.
    pub fn message(&self) -> (r: String)
        ensures
            r@ == seq!['`', self.c] + "` cannot be used as a spell"@,
    {
        let mut v: Vec<char> = Vec::new();
        v.push('`');
        v.push(self.c);
        let mut rest = crate::text::str_to_chars("` cannot be used as a spell");
        let ghost head = v@;
        v.append(&mut rest);
        assert(head =~= seq!['`', self.c]);
        crate::text::chars_to_string(v.as_slice())
    }
}

impl View for SpellString {
    type V = Seq<char>;

    closed spec fn view(&self) -> Seq<char> {
        self.0@
    }
}

impl Clone for SpellString {
    fn clone(&self) -> (r: Self)
        ensures
            r@ == self@,
    {
        self.duplicate()
    }
}

impl SpellString {
    #[verifier::type_invariant]
    spec fn inv(self) -> bool {
        all_usable_in_spell(self.0@)
    }

    /// Returns the spell string of `chars` when every character is usable in a spell; otherwise
    /// the error names the first character which is not.
    pub fn from_chars(chars: Vec<char>) -> (r: Result<Self, SpellStringError>)
        ensures
            all_usable_in_spell(chars@) <==> r is Ok,
            r matches Ok(s) ==> s@ == chars@,
            r matches Err(e) ==> exists|i: int|
                0 <= i < chars@.len() && chars@[i] == e.c && !spec_usable_in_spell(chars@[i])
                    && all_usable_in_spell(chars@.subrange(0, i)),
    {
        let mut i: usize = 0;
        while i < chars.len()
            invariant
                i <= chars@.len(),
                all_usable_in_spell(chars@.subrange(0, i as int)),
            decreases chars@.len() - i,
        {
            if !usable_in_spell_string(chars[i]) {
                return Err(SpellStringError { c: chars[i] });
            }
            assert(chars@.subrange(0, i + 1) =~= chars@.subrange(0, i as int).push(chars@[i as int]));
            i = i + 1;
        }
        assert(chars@.subrange(0, chars@.len() as int) =~= chars@);
        Ok(SpellString(chars))
    }

    /// Returns the spell string of the characters of `s`, or the error naming the first
    /// character which cannot be used in a spell.
    pub fn from_str(s: &str) -> (r: Result<Self, SpellStringError>)
        ensures
            all_usable_in_spell(s@) <==> r is Ok,
            r matches Ok(ss) ==> ss@ == s@,
            r matches Err(e) ==> exists|i: int|
                0 <= i < s@.len() && s@[i] == e.c && !spec_usable_in_spell(s@[i])
                    && all_usable_in_spell(s@.subrange(0, i)),
    {
        Self::from_chars(crate::text::str_to_chars(s))
    }

    /// A copy of this spell string.
    pub fn duplicate(&self) -> (r: Self)
        ensures
            r@ == self@,
    {
        proof {
            use_type_invariant(self);
        }
        SpellString(self.0.clone())
    }

    /// The characters of this spell string.
    pub fn as_chars(&self) -> (r: &Vec<char>)
        ensures
            r@ == self@,
            all_usable_in_spell(r@),
    {
        proof {
            use_type_invariant(self);
        }
        &self.0
    }

    /// Number of characters of this spell string.
    pub fn len(&self) -> (r: usize)
        ensures
            r == self@.len(),
    {
        self.0.len()
    }

    /// Returns whether this spell string contains displayable ASCII characters.
    pub fn contains_displayable_ascii(&self) -> (r: bool)
        ensures
            r == spec_contains_displayable_ascii(self@),
    {
        let mut i: usize = 0;
        while i < self.0.len()
            invariant
                i <= self@.len(),
                forall|j: int| 0 <= j < i ==> !spec_is_displayable_ascii(#[trigger] self@[j]),
            decreases self@.len() - i,
        {
            if is_displayable_ascii(self.0[i]) {
                return true;
            }
            i = i + 1;
        }
        false
    }

    /// The spell string made of the single character at `index`.
    pub fn char_at(&self, index: usize) -> (r: Self)
        requires
            index < self@.len(),
        ensures
            r@ == seq![self@[index as int]],
    {
        proof {
            use_type_invariant(self);
        }
        let mut v: Vec<char> = Vec::new();
        v.push(self.0[index]);
        SpellString(v)
    }

    /// The concatenation of two spell strings.
    pub fn concat(&self, other: &Self) -> (r: Self)
        ensures
            r@ == self@ + other@,
    {
        proof {
            use_type_invariant(self);
            use_type_invariant(other);
        }
        let mut v = self.0.clone();
        let mut i: usize = 0;
        while i < other.0.len()
            invariant
                i <= other@.len(),
                v@ == self@ + other@.subrange(0, i as int),
            decreases other@.len() - i,
        {
            v.push(other.0[i]);
            i = i + 1;
            assert(v@ =~= self@ + other@.subrange(0, i as int));
        }
        assert(other@.subrange(0, other@.len() as int) =~= other@);
        SpellString(v)
    }

    /// The empty spell string.
    pub fn empty() -> (r: Self)
        ensures
            r@ == Seq::<char>::empty(),
    {
        SpellString(Vec::new())
    }

    /// This spell string as a `String`.
    pub fn to_string(&self) -> (r: String)
        ensures
            r@ == self@,
    {
        crate::text::chars_to_string(self.0.as_slice())
    }
}

impl TryFrom<String> for SpellString {
    type Error = SpellStringError;

    fn try_from(value: String) -> (r: Result<Self, Self::Error>)
        ensures
            all_usable_in_spell(value@) <==> r is Ok,
            r matches Ok(s) ==> s@ == value@,
            r matches Err(e) ==> exists|i: int|
                0 <= i < value@.len() && value@[i] == e.c && !spec_usable_in_spell(value@[i])
                    && all_usable_in_spell(value@.subrange(0, i)),
    {
        Self::from_str(value.as_str())
    }
}

impl vstd::std_specs::convert::TryFromSpecImpl<String> for SpellString {
    open spec fn obeys_try_from_spec() -> bool {
        false
    }

    /// Not used: the conversion is described by the `ensures` of [`SpellString::from_str`].
    open spec fn try_from_spec(v: String) -> Result<Self, SpellStringError> {
        Err(SpellStringError { c: ' ' })
    }
}

} // verus!
