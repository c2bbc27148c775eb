//! Character classification and the small set of trusted primitives that
//! bridge to the standard library's text layer.
//!
//! ASCII-decidable classes (decimal digits, radix digits, ASCII punctuation)
//! are implemented and verified here against exact specifications.  Unicode
//! classes (alphabetic, alphanumeric, whitespace, case) and case conversion
//! are delegated to the standard library through trusted wrappers whose
//! results are named by uninterpreted spec functions.

use vstd::prelude::*;

verus! {

/// A decimal digit `0`..=`9`.
pub open spec fn is_dec_digit(c: char) -> bool {
    '0' as u32 <= c as u32 && c as u32 <= '9' as u32
}

/// The numeric value of a decimal digit.
pub open spec fn dec_digit_value(c: char) -> int {
    c as u32 - '0' as u32
}

/// The value a character denotes as a digit in bases up to 36, following the
/// standard library's convention: `0`-`9`, then `a`-`z` / `A`-`Z` for 10-35.
/// Characters that are digits in no base map to 36.
pub open spec fn radix_digit_value(c: char) -> int {
    if is_dec_digit(c) {
        dec_digit_value(c)
    } else if 'a' as u32 <= c as u32 && c as u32 <= 'z' as u32 {
        c as u32 - 'a' as u32 + 10
    } else if 'A' as u32 <= c as u32 && c as u32 <= 'Z' as u32 {
        c as u32 - 'A' as u32 + 10
    } else {
        36
    }
}

/// A digit in the given base: its value exists and is below the base.
pub open spec fn is_radix_digit(c: char, radix: u32) -> bool {
    radix_digit_value(c) < radix
}

/// ASCII punctuation, as the standard library defines it: the four runs
/// `!`..`/`, `:`..`@`, `[`..`` ` `` and `{`..`~`.
pub open spec fn is_ascii_punct(c: char) -> bool {
    ||| (33 <= c as u32 && c as u32 <= 47)
    ||| (58 <= c as u32 && c as u32 <= 64)
    ||| (91 <= c as u32 && c as u32 <= 96)
    ||| (123 <= c as u32 && c as u32 <= 126)
}

/// Decide `is_dec_digit`.
pub fn is_digit_char(c: char) -> (r: bool)
    ensures
        r == is_dec_digit(c),
{
    let u = c as u32;
    '0' as u32 <= u && u <= '9' as u32
}

/// Decide `is_radix_digit` for bases up to 36.
pub fn is_radix_digit_char(c: char, radix: u32) -> (r: bool)
    requires
        radix <= 36,
    ensures
        r == is_radix_digit(c, radix),
{
    let u = c as u32;
    let value: u32 = if '0' as u32 <= u && u <= '9' as u32 {
        u - '0' as u32
    } else if 'a' as u32 <= u && u <= 'z' as u32 {
        u - 'a' as u32 + 10
    } else if 'A' as u32 <= u && u <= 'Z' as u32 {
        u - 'A' as u32 + 10
    } else {
        36
    };
    value < radix
}

/// Decide `is_ascii_punct`.
pub fn is_ascii_punct_char(c: char) -> (r: bool)
    ensures
        r == is_ascii_punct(c),
{
    let u = c as u32;
    (33 <= u && u <= 47) || (58 <= u && u <= 64) || (91 <= u && u <= 96) || (123 <= u && u
        <= 126)
}

/// What `char::is_alphabetic` returns; a fixed function of the character.
pub uninterp spec fn alpha_char(c: char) -> bool;

/// What `char::is_alphanumeric` returns; a fixed function of the character.
pub uninterp spec fn alnum_char(c: char) -> bool;

/// What `char::is_numeric` returns; a fixed function of the character.
pub uninterp spec fn numeric_char(c: char) -> bool;

/// What `char::is_lowercase` returns; a fixed function of the character.
pub uninterp spec fn lower_char(c: char) -> bool;

/// What `char::is_uppercase` returns; a fixed function of the character.
pub uninterp spec fn upper_char(c: char) -> bool;

/// What `char::is_whitespace` returns; a fixed function of the character.
pub uninterp spec fn white_char(c: char) -> bool;

/// What `str::to_lowercase` returns, as a function of the characters alone.
pub uninterp spec fn lower_of(s: Seq<char>) -> Seq<char>;

/// The characters of `s` satisfying `pred`, in order.
pub open spec fn kept_chars(s: Seq<char>, pred: spec_fn(char) -> bool) -> Seq<char>
    decreases s.len(),
{
    if s.len() == 0 {
        Seq::empty()
    } else {
        kept_chars(s.drop_last(), pred) + if pred(s.last()) {
            seq![s.last()]
        } else {
            Seq::<char>::empty()
        }
    }
}

/// The alphanumeric characters of `s`, in order.
pub open spec fn kept_alnum(s: Seq<char>) -> Seq<char> {
    kept_chars(s, |c: char| alnum_char(c))
}

/// Relies on char::is_alphabetic: Unicode letter classification.
#[verifier::external_body]
pub fn is_alpha(c: char) -> (r: bool)
    ensures
        r == alpha_char(c),
{
    c.is_alphabetic()
}

/// Relies on char::is_alphanumeric: Unicode letter-or-number classification.
#[verifier::external_body]
pub fn is_alnum(c: char) -> (r: bool)
    ensures
        r == alnum_char(c),
{
    c.is_alphanumeric()
}

/// Relies on char::is_numeric: Unicode number classification.
#[verifier::external_body]
pub fn is_numeric_class(c: char) -> (r: bool)
    ensures
        r == numeric_char(c),
{
    c.is_numeric()
}

/// Relies on char::is_lowercase: Unicode lowercase classification.
#[verifier::external_body]
pub fn is_lower(c: char) -> (r: bool)
    ensures
        r == lower_char(c),
{
    c.is_lowercase()
}

/// Relies on char::is_uppercase: Unicode uppercase classification.
#[verifier::external_body]
pub fn is_upper(c: char) -> (r: bool)
    ensures
        r == upper_char(c),
{
    c.is_uppercase()
}

/// Relies on char::is_whitespace: Unicode whitespace classification.
#[verifier::external_body]
pub fn is_white(c: char) -> (r: bool)
    ensures
        r == white_char(c),
{
    c.is_whitespace()
}

/// Relies on str::to_lowercase: the result depends on the characters alone.
#[verifier::external_body]
pub fn lowercase(s: &str) -> (r: String)
    ensures
        r@ == lower_of(s@),
{
    s.to_lowercase()
}

/// Relies on String::push: appends exactly the given character.
#[verifier::external_body]
pub fn push_char(s: &mut String, c: char)
    ensures
        final(s)@ == old(s)@.push(c),
{
    s.push(c)
}

/// The characters of a string as a vector, via repeated `get_char`.
pub fn chars_vec(s: &str) -> (r: Vec<char>)
    ensures
        r@ == s@,
{
    let n = s.unicode_len();
    let mut out: Vec<char> = Vec::new();
    let mut i: usize = 0;
    while i < n
        invariant
            n == s@.len(),
            i <= n,
            out@ == s@.take(i as int),
        decreases n - i,
    {
        out.push(s.get_char(i));
        i = i + 1;
        assert(out@ =~= s@.take(i as int));
    }
    assert(s@.take(n as int) =~= s@);
    out
}

/// A string holding exactly the given characters.
pub fn string_of(v: &Vec<char>) -> (r: String)
    ensures
        r@ == v@,
{
    let mut out = String::new();
    let mut i: usize = 0;
    while i < v.len()
        invariant
            i <= v@.len(),
            out@ == v@.take(i as int),
        decreases v@.len() - i,
    {
        push_char(&mut out, v[i]);
        i = i + 1;
        assert(out@ =~= v@.take(i as int));
    }
    assert(v@.take(v@.len() as int) =~= v@);
    out
}

} // verus!
