//! Named character classes, including custom single characters, character
//! sets and ranges, with membership tests and class-based filtering and
//! stripping of strings.

use vstd::prelude::*;
use crate::chars::{
    alnum_char, alpha_char, numeric_char, lower_char, upper_char, white_char, is_dec_digit,
    is_radix_digit, is_ascii_punct, is_digit_char, is_radix_digit_char, is_ascii_punct_char,
    is_alnum, is_alpha, is_numeric_class, is_lower, is_upper, is_white, kept_chars, chars_vec,
    push_char,
};

verus! {

/// A character class: a named Unicode or ASCII category, a single
/// character, a set of characters, a half-open range, or an inclusive
/// range.
#[derive(Debug)]
pub enum CharType {
    Any,
    DecDigit,
    Digit(u32),
    Numeric,
    AlphaNum,
    Upper,
    Lower,
    Alpha,
    Spaces,
    Punctuation,
    Char(char),
    Chars(Vec<char>),
    Range(char, char),
    Between(char, char),
}

/// Whether a character belongs to a class.
pub open spec fn char_in_type(c: char, ct: CharType) -> bool {
    match ct {
        CharType::Any => true,
        CharType::DecDigit => is_dec_digit(c),
        CharType::Digit(radix) => is_radix_digit(c, radix),
        CharType::Numeric => numeric_char(c),
        CharType::AlphaNum => alnum_char(c),
        CharType::Upper => upper_char(c),
        CharType::Lower => lower_char(c),
        CharType::Alpha => alpha_char(c),
        CharType::Spaces => white_char(c),
        CharType::Punctuation => is_ascii_punct(c),
        CharType::Char(ch) => c == ch,
        CharType::Chars(list) => list@.contains(c),
        CharType::Range(a, b) => a as u32 <= c as u32 && (c as u32) < b as u32,
        CharType::Between(a, b) => a as u32 <= c as u32 && c as u32 <= b as u32,
    }
}

/// A class whose membership test is defined: a digit class must name a base
/// of at most 36.
pub open spec fn valid_char_type(ct: CharType) -> bool {
    ct matches CharType::Digit(radix) ==> radix <= 36
}

/// Every class in the list is defined.
pub open spec fn valid_char_types(cts: Seq<CharType>) -> bool {
    forall|k: int| 0 <= k < cts.len() ==> valid_char_type(#[trigger] cts[k])
}

/// Whether a character belongs to at least one class of the list.
pub open spec fn char_in_any_type(c: char, cts: Seq<CharType>) -> bool {
    exists|k: int| 0 <= k < cts.len() && char_in_type(c, #[trigger] cts[k])
}

impl CharType {
    /// Decide membership of a character in this class.
    pub fn is_in_range(&self, c_ref: &char) -> (r: bool)
        requires
            valid_char_type(*self),
        ensures
            r == char_in_type(*c_ref, *self),
    {
        let c = *c_ref;
        match self {
            Self::Any => true,
            Self::DecDigit => is_digit_char(c),
            Self::Digit(radix) => is_radix_digit_char(c, *radix),
            Self::Numeric => is_numeric_class(c),
            Self::AlphaNum => is_alnum(c),
            Self::Lower => is_lower(c),
            Self::Upper => is_upper(c),
            Self::Alpha => is_alpha(c),
            Self::Spaces => is_white(c),
            Self::Punctuation => is_ascii_punct_char(c),
            Self::Char(ch) => c == *ch,
            Self::Chars(list) => {
                proof {
                    assert(char_in_type(c, *self) == list@.contains(c));
                }
                let mut i: usize = 0;
                while i < list.len()
                    invariant
                        self is Chars,
                        self->Chars_0 == *list,
                        c == *c_ref,
                        char_in_type(c, *self) == list@.contains(c),
                        i <= list@.len(),
                        forall|j: int| 0 <= j < i ==> list@[j] != c,
                    decreases list@.len() - i,
                {
                    if list[i] == c {
                        proof {
                            assert(list@.contains(c)) by {
                                assert(list@[i as int] == c);
                            }
                        }
                        return true;
                    }
                    i = i + 1;
                }
                false
            },
            Self::Range(a, b) => *a as u32 <= c as u32 && (c as u32) < *b as u32,
            Self::Between(a, b) => *a as u32 <= c as u32 && c as u32 <= *b as u32,
        }
    }
}

/// Decide membership of a character in any class of the list.
fn in_any_type(c: char, cts: &Vec<CharType>) -> (r: bool)
    requires
        valid_char_types(cts@),
    ensures
        r == char_in_any_type(c, cts@),
{
    let mut i: usize = 0;
    while i < cts.len()
        invariant
            i <= cts@.len(),
            valid_char_types(cts@),
            forall|j: int| 0 <= j < i ==> !char_in_type(c, #[trigger] cts@[j]),
        decreases cts@.len() - i,
    {
        if cts[i].is_in_range(&c) {
            return true;
        }
        i = i + 1;
    }
    false
}

/// Keep only the characters belonging to the class.
pub fn filter_by_type(s: &str, ct: CharType) -> (r: String)
    requires
        valid_char_type(ct),
    ensures
        r@ == kept_chars(s@, |c: char| char_in_type(c, ct)),
{
    let v = chars_vec(s);
    let ghost pred = |c: char| char_in_type(c, ct);
    let mut out = String::new();
    let mut i: usize = 0;
    while i < v.len()
        invariant
            v@ == s@,
            i <= v@.len(),
            valid_char_type(ct),
            out@ == kept_chars(s@.take(i as int), pred),
            pred == (|c: char| char_in_type(c, ct)),
        decreases v@.len() - i,
    {
        proof {
            assert(s@.take(i + 1).drop_last() =~= s@.take(i as int));
            assert(s@.take(i + 1).last() == s@[i as int]);
        }
        if ct.is_in_range(&v[i]) {
            push_char(&mut out, v[i]);
        }
        i = i + 1;
        assert(out@ =~= kept_chars(s@.take(i as int), pred));
    }
    proof {
        assert(s@.take(s@.len() as int) =~= s@);
    }
    out
}

/// Remove the characters belonging to the class.
pub fn strip_by_type(s: &str, ct: CharType) -> (r: String)
    requires
        valid_char_type(ct),
    ensures
        r@ == kept_chars(s@, |c: char| !char_in_type(c, ct)),
{
    let v = chars_vec(s);
    let ghost pred = |c: char| !char_in_type(c, ct);
    let mut out = String::new();
    let mut i: usize = 0;
    while i < v.len()
        invariant
            v@ == s@,
            i <= v@.len(),
            valid_char_type(ct),
            out@ == kept_chars(s@.take(i as int), pred),
            pred == (|c: char| !char_in_type(c, ct)),
        decreases v@.len() - i,
    {
        proof {
            assert(s@.take(i + 1).drop_last() =~= s@.take(i as int));
            assert(s@.take(i + 1).last() == s@[i as int]);
        }
        if !ct.is_in_range(&v[i]) {
            push_char(&mut out, v[i]);
        }
        i = i + 1;
        assert(out@ =~= kept_chars(s@.take(i as int), pred));
    }
    proof {
        assert(s@.take(s@.len() as int) =~= s@);
    }
    out
}

/// Keep only the characters belonging to at least one class of the list.
pub fn filter_by_types(s: &str, cts: &Vec<CharType>) -> (r: String)
    requires
        valid_char_types(cts@),
    ensures
        r@ == kept_chars(s@, |c: char| char_in_any_type(c, cts@)),
{
    let v = chars_vec(s);
    let ghost pred = |c: char| char_in_any_type(c, cts@);
    let mut out = String::new();
    let mut i: usize = 0;
    while i < v.len()
        invariant
            v@ == s@,
            i <= v@.len(),
            valid_char_types(cts@),
            out@ == kept_chars(s@.take(i as int), pred),
            pred == (|c: char| char_in_any_type(c, cts@)),
        decreases v@.len() - i,
    {
        proof {
            assert(s@.take(i + 1).drop_last() =~= s@.take(i as int));
            assert(s@.take(i + 1).last() == s@[i as int]);
        }
        if in_any_type(v[i], cts) {
            push_char(&mut out, v[i]);
        }
        i = i + 1;
        assert(out@ =~= kept_chars(s@.take(i as int), pred));
    }
    proof {
        assert(s@.take(s@.len() as int) =~= s@);
    }
    out
}

/// Remove the characters belonging to at least one class of the list.
pub fn strip_by_types(s: &str, cts: &Vec<CharType>) -> (r: String)
    requires
        valid_char_types(cts@),
    ensures
        r@ == kept_chars(s@, |c: char| !char_in_any_type(c, cts@)),
{
    let v = chars_vec(s);
    let ghost pred = |c: char| !char_in_any_type(c, cts@);
    let mut out = String::new();
    let mut i: usize = 0;
    while i < v.len()
        invariant
            v@ == s@,
            i <= v@.len(),
            valid_char_types(cts@),
            out@ == kept_chars(s@.take(i as int), pred),
            pred == (|c: char| !char_in_any_type(c, cts@)),
        decreases v@.len() - i,
    {
        proof {
            assert(s@.take(i + 1).drop_last() =~= s@.take(i as int));
            assert(s@.take(i + 1).last() == s@[i as int]);
        }
        if !in_any_type(v[i], cts) {
            push_char(&mut out, v[i]);
        }
        i = i + 1;
        assert(out@ =~= kept_chars(s@.take(i as int), pred));
    }
    proof {
        assert(s@.take(s@.len() as int) =~= s@);
    }
    out
}

/// Remove all whitespace characters.
pub fn strip_spaces(s: &str) -> (r: String)
    ensures
        r@ == kept_chars(s@, |c: char| !char_in_type(c, CharType::Spaces)),
{
    strip_by_type(s, CharType::Spaces)
}

/// Does the string contain a character of the class?
pub fn contains_type(s: &str, char_type: CharType) -> (r: bool)
    requires
        valid_char_type(char_type),
    ensures
        r == exists|i: int| 0 <= i < s@.len() && char_in_type(#[trigger] s@[i], char_type),
{
    let v = chars_vec(s);
    let mut i: usize = 0;
    while i < v.len()
        invariant
            v@ == s@,
            i <= v@.len(),
            valid_char_type(char_type),
            forall|j: int| 0 <= j < i ==> !char_in_type(#[trigger] s@[j], char_type),
        decreases v@.len() - i,
    {
        if char_type.is_in_range(&v[i]) {
            return true;
        }
        i = i + 1;
    }
    false
}

/// Does the string contain a character of any class in the list?
pub fn contains_types(s: &str, char_types: &Vec<CharType>) -> (r: bool)
    requires
        valid_char_types(char_types@),
    ensures
        r == exists|i: int| 0 <= i < s@.len() && char_in_any_type(#[trigger] s@[i], char_types@),
{
    let v = chars_vec(s);
    let mut i: usize = 0;
    while i < v.len()
        invariant
            v@ == s@,
            i <= v@.len(),
            valid_char_types(char_types@),
            forall|j: int| 0 <= j < i ==> !char_in_any_type(#[trigger] s@[j], char_types@),
        decreases v@.len() - i,
    {
        if in_any_type(v[i], char_types) {
            return true;
        }
        i = i + 1;
    }
    false
}

/// Does the string start with a character of the class?
pub fn starts_with_type(s: &str, char_type: CharType) -> (r: bool)
    requires
        valid_char_type(char_type),
    ensures
        r == (s@.len() > 0 && char_in_type(s@[0], char_type)),
{
    let v = chars_vec(s);
    if v.len() == 0 {
        false
    } else {
        char_type.is_in_range(&v[0])
    }
}

/// Does the string start with a character of any class in the list?
pub fn starts_with_types(s: &str, char_types: &Vec<CharType>) -> (r: bool)
    requires
        valid_char_types(char_types@),
    ensures
        r == (s@.len() > 0 && char_in_any_type(s@[0], char_types@)),
{
    let v = chars_vec(s);
    if v.len() == 0 {
        false
    } else {
        in_any_type(v[0], char_types)
    }
}

/// Does the string end with a character of the class?
pub fn ends_with_type(s: &str, char_type: CharType) -> (r: bool)
    requires
        valid_char_type(char_type),
    ensures
        r == (s@.len() > 0 && char_in_type(s@[s@.len() - 1], char_type)),
{
    let v = chars_vec(s);
    if v.len() == 0 {
        false
    } else {
        char_type.is_in_range(&v[v.len() - 1])
    }
}

/// Does the string end with a character of any class in the list?
pub fn ends_with_types(s: &str, char_types: &Vec<CharType>) -> (r: bool)
    requires
        valid_char_types(char_types@),
    ensures
        r == (s@.len() > 0 && char_in_any_type(s@[s@.len() - 1], char_types@)),
{
    let v = chars_vec(s);
    if v.len() == 0 {
        false
    } else {
        in_any_type(v[v.len() - 1], char_types)
    }
}

} // verus!
