//! Numeric-token extraction and locale disambiguation.
//!
//! A single left-to-right scan collects candidate numeric substrings (sign,
//! digits, interior `.`/`,` separators); each candidate is then normalised so
//! that `.` is the sole decimal separator, under either an auto-detect or a
//! forced comma-as-decimal policy; finally a normalised candidate may be
//! parsed into an integer.

use vstd::prelude::*;
use crate::chars::{
    is_dec_digit, dec_digit_value, is_digit_char, is_radix_digit, is_radix_digit_char,
    is_alnum, is_alpha, alnum_char, alpha_char, kept_chars, kept_alnum, chars_vec, string_of,
    push_char,
};

verus! {

// ---------------------------------------------------------------------------
// Character-group tests and character-class stripping.
// ---------------------------------------------------------------------------

/// Does the string contain a decimal digit?
pub fn has_digits(s: &str) -> (r: bool)
    ensures
        r == exists|i: int| 0 <= i < s@.len() && is_dec_digit(#[trigger] s@[i]),
{
    let v = chars_vec(s);
    let mut i: usize = 0;
    while i < v.len()
        invariant
            v@ == s@,
            i <= v@.len(),
            forall|j: int| 0 <= j < i ==> !is_dec_digit(#[trigger] s@[j]),
        decreases v@.len() - i,
    {
        if is_digit_char(v[i]) {
            return true;
        }
        i = i + 1;
    }
    false
}

/// Does the string contain a digit in the given base (at most 36)?
pub fn has_digits_radix(s: &str, radix: u8) -> (r: bool)
    requires
        radix <= 36,
    ensures
        r == exists|i: int| 0 <= i < s@.len() && is_radix_digit(#[trigger] s@[i], radix as u32),
{
    let v = chars_vec(s);
    let mut i: usize = 0;
    while i < v.len()
        invariant
            v@ == s@,
            i <= v@.len(),
            radix <= 36,
            forall|j: int| 0 <= j < i ==> !is_radix_digit(#[trigger] s@[j], radix as u32),
        decreases v@.len() - i,
    {
        if is_radix_digit_char(v[i], radix as u32) {
            return true;
        }
        i = i + 1;
    }
    false
}

/// Does the string contain an alphanumeric character?
pub fn has_alphanumeric(s: &str) -> (r: bool)
    ensures
        r == exists|i: int| 0 <= i < s@.len() && alnum_char(#[trigger] s@[i]),
{
    let v = chars_vec(s);
    let mut i: usize = 0;
    while i < v.len()
        invariant
            v@ == s@,
            i <= v@.len(),
            forall|j: int| 0 <= j < i ==> !alnum_char(#[trigger] s@[j]),
        decreases v@.len() - i,
    {
        if is_alnum(v[i]) {
            return true;
        }
        i = i + 1;
    }
    false
}

/// Does the string contain an alphabetic character?
pub fn has_alphabetic(s: &str) -> (r: bool)
    ensures
        r == exists|i: int| 0 <= i < s@.len() && alpha_char(#[trigger] s@[i]),
{
    let v = chars_vec(s);
    let mut i: usize = 0;
    while i < v.len()
        invariant
            v@ == s@,
            i <= v@.len(),
            forall|j: int| 0 <= j < i ==> !alpha_char(#[trigger] s@[j]),
        decreases v@.len() - i,
    {
        if is_alpha(v[i]) {
            return true;
        }
        i = i + 1;
    }
    false
}

/// Is every character a decimal digit?
pub fn is_digits_only(s: &str) -> (r: bool)
    ensures
        r == forall|i: int| 0 <= i < s@.len() ==> is_dec_digit(#[trigger] s@[i]),
{
    let v = chars_vec(s);
    let mut i: usize = 0;
    while i < v.len()
        invariant
            v@ == s@,
            i <= v@.len(),
            forall|j: int| 0 <= j < i ==> is_dec_digit(#[trigger] s@[j]),
        decreases v@.len() - i,
    {
        if !is_digit_char(v[i]) {
            return false;
        }
        i = i + 1;
    }
    true
}

/// Is every character a digit in the given base (at most 36)?
pub fn is_digits_only_radix(s: &str, radix: u8) -> (r: bool)
    requires
        radix <= 36,
    ensures
        r == forall|i: int| 0 <= i < s@.len() ==> is_radix_digit(#[trigger] s@[i], radix as u32),
{
    let v = chars_vec(s);
    let mut i: usize = 0;
    while i < v.len()
        invariant
            v@ == s@,
            i <= v@.len(),
            radix <= 36,
            forall|j: int| 0 <= j < i ==> is_radix_digit(#[trigger] s@[j], radix as u32),
        decreases v@.len() - i,
    {
        if !is_radix_digit_char(v[i], radix as u32) {
            return false;
        }
        i = i + 1;
    }
    true
}

/// Remove every character that is not alphanumeric.
pub fn strip_non_alphanum(s: &str) -> (r: String)
    ensures
        r@ == kept_alnum(s@),
{
    let v = chars_vec(s);
    let mut out = String::new();
    let mut i: usize = 0;
    while i < v.len()
        invariant
            v@ == s@,
            i <= v@.len(),
            out@ == kept_alnum(s@.take(i as int)),
        decreases v@.len() - i,
    {
        proof {
            assert(s@.take(i + 1).drop_last() =~= s@.take(i as int));
            assert(s@.take(i + 1).last() == s@[i as int]);
        }
        if is_alnum(v[i]) {
            push_char(&mut out, v[i]);
        }
        i = i + 1;
        assert(out@ =~= kept_alnum(s@.take(i as int)));
    }
    proof {
        assert(s@.take(s@.len() as int) =~= s@);
    }
    out
}

/// Remove every character that is not a decimal digit.
pub fn strip_non_digits(s: &str) -> (r: String)
    ensures
        r@ == kept_chars(s@, |c: char| is_dec_digit(c)),
{
    let v = chars_vec(s);
    let ghost pred = |c: char| is_dec_digit(c);
    let mut out = String::new();
    let mut i: usize = 0;
    while i < v.len()
        invariant
            v@ == s@,
            i <= v@.len(),
            out@ == kept_chars(s@.take(i as int), pred),
            pred == (|c: char| is_dec_digit(c)),
        decreases v@.len() - i,
    {
        proof {
            assert(s@.take(i + 1).drop_last() =~= s@.take(i as int));
            assert(s@.take(i + 1).last() == s@[i as int]);
        }
        if is_digit_char(v[i]) {
            push_char(&mut out, v[i]);
        }
        i = i + 1;
        assert(out@ =~= kept_chars(s@.take(i as int), pred));
    }
    proof {
        assert(s@.take(s@.len() as int) =~= s@);
    }
    out
}

// ---------------------------------------------------------------------------
// Character-sequence helpers: counting, last position, removal, trimming.
// ---------------------------------------------------------------------------

/// How many times `c` occurs in `s`.
pub open spec fn count_char(s: Seq<char>, c: char) -> int
    decreases s.len(),
{
    if s.len() == 0 {
        0
    } else {
        count_char(s.drop_last(), c) + if s.last() == c {
            1int
        } else {
            0int
        }
    }
}

/// The index of the last occurrence of `c` in `s`, or 0 when `c` is absent
/// (the scanner's comparisons treat a missing separator as position 0).
pub open spec fn last_pos_or_zero(s: Seq<char>, c: char) -> int
    decreases s.len(),
{
    if s.len() == 0 {
        0
    } else if s.last() == c {
        s.len() - 1
    } else {
        last_pos_or_zero(s.drop_last(), c)
    }
}

/// `s` with every occurrence of `c` removed.
pub open spec fn remove_char(s: Seq<char>, c: char) -> Seq<char>
    decreases s.len(),
{
    if s.len() == 0 {
        Seq::empty()
    } else {
        remove_char(s.drop_last(), c) + if s.last() == c {
            Seq::<char>::empty()
        } else {
            seq![s.last()]
        }
    }
}

/// `s` with every trailing occurrence of `c` removed.
pub open spec fn trim_trailing(s: Seq<char>, c: char) -> Seq<char>
    decreases s.len(),
{
    if s.len() > 0 && s.last() == c {
        trim_trailing(s.drop_last(), c)
    } else {
        s
    }
}

/// Counts are bounded by the length; the last position is in range and holds
/// `c` whenever `c` occurs at all, and nothing beyond it holds `c`.
pub proof fn lemma_count_and_last_pos(s: Seq<char>, c: char)
    ensures
        0 <= count_char(s, c) <= s.len(),
        count_char(s, c) == 0 ==> last_pos_or_zero(s, c) == 0,
        count_char(s, c) > 0 ==> {
            let p = last_pos_or_zero(s, c);
            &&& 0 <= p < s.len()
            &&& s[p] == c
            &&& forall|j: int| p < j < s.len() ==> s[j] != c
        },
    decreases s.len(),
{
    if s.len() > 0 {
        lemma_count_and_last_pos(s.drop_last(), c);
        if s.last() != c && count_char(s, c) > 0 {
            let p = last_pos_or_zero(s.drop_last(), c);
            assert(s.drop_last()[p] == s[p]);
            assert forall|j: int| p < j < s.len() implies s[j] != c by {
                if j < s.len() - 1 {
                    assert(s.drop_last()[j] == s[j]);
                }
            }
        }
    }
}

/// Removing an absent character changes nothing.
pub proof fn lemma_remove_absent(s: Seq<char>, c: char)
    requires
        count_char(s, c) == 0,
    ensures
        remove_char(s, c) == s,
    decreases s.len(),
{
    if s.len() > 0 {
        lemma_count_and_last_pos(s.drop_last(), c);
        lemma_remove_absent(s.drop_last(), c);
        assert(remove_char(s, c) =~= s);
    }
}

/// What `remove_char` keeps: exactly the characters other than `c`, in order.
pub proof fn lemma_remove_char_chars(s: Seq<char>, c: char)
    ensures
        forall|i: int|
            0 <= i < remove_char(s, c).len() ==> #[trigger] remove_char(s, c)[i] != c
                && exists|j: int| 0 <= j < s.len() && s[j] == remove_char(s, c)[i],
        remove_char(s, c).len() == s.len() - count_char(s, c),
    decreases s.len(),
{
    if s.len() > 0 {
        lemma_remove_char_chars(s.drop_last(), c);
        assert forall|i: int| 0 <= i < remove_char(s, c).len() implies #[trigger] remove_char(
            s,
            c,
        )[i] != c && exists|j: int| 0 <= j < s.len() && s[j] == remove_char(s, c)[i] by {
            let prev = remove_char(s.drop_last(), c);
            if i < prev.len() {
                assert(remove_char(s, c)[i] == prev[i]);
                let j = choose|j: int|
                    0 <= j < s.drop_last().len() && s.drop_last()[j] == prev[i];
                assert(s[j] == prev[i]);
            } else {
                assert(remove_char(s, c)[i] == s.last());
                assert(s[s.len() - 1] == s.last());
            }
        }
    }
}

// ---------------------------------------------------------------------------
// The strict numeric validator.
// ---------------------------------------------------------------------------

/// Whether position `i` of `s` is acceptable in a strict numeric literal:
/// a decimal digit, a minus sign at position 0, or the first `.` provided it
/// is not the final character.
pub open spec fn valid_numeric_char_at(s: Seq<char>, i: int) -> bool {
    ||| is_dec_digit(s[i])
    ||| (s[i] == '-' && i == 0)
    ||| (s[i] == '.' && i < s.len() - 1 && (forall|j: int| 0 <= j < i ==> s[j] != '.'))
}

/// A strict numeric literal: non-empty, digits with an optional leading `-`
/// and at most one `.`, which may not be the final character.
pub open spec fn strict_numeric(s: Seq<char>) -> bool {
    s.len() > 0 && forall|i: int| 0 <= i < s.len() ==> valid_numeric_char_at(s, i)
}

/// Strict check on a numeric string before parsing it: every character must
/// be a digit, a leading minus or a single non-final decimal point.
pub fn is_numeric(s: &str) -> (r: bool)
    ensures
        r == strict_numeric(s@),
{
    let v = chars_vec(s);
    let n = v.len();
    if n == 0 {
        return false;
    }
    let mut i: usize = 0;
    let mut seen_dot = false;
    let mut ok = true;
    while i < n
        invariant
            n == v@.len() == s@.len(),
            v@ == s@,
            i <= n,
            seen_dot == exists|j: int| 0 <= j < i && s@[j] == '.',
            ok == forall|j: int| 0 <= j < i ==> valid_numeric_char_at(s@, j),
        decreases n - i,
    {
        let c = v[i];
        let valid = if is_digit_char(c) {
            true
        } else if c == '-' {
            i == 0
        } else if c == '.' {
            i < n - 1 && !seen_dot
        } else {
            false
        };
        proof {
            assert(valid == valid_numeric_char_at(s@, i as int));
        }
        ok = ok && valid;
        seen_dot = seen_dot || c == '.';
        i = i + 1;
    }
    ok
}

// ---------------------------------------------------------------------------
// Separator disambiguation.
// ---------------------------------------------------------------------------

/// Whether the disambiguation rule treats the comma as the decimal separator
/// for candidate `s`: more than one `.`, or a single trailing-most `,` after
/// the last `.`, or a forced comma-as-decimal policy with at most one `,`.
pub open spec fn comma_is_decimal(s: Seq<char>, force_comma: bool) -> bool {
    let commas = count_char(s, ',');
    let last_c = last_pos_or_zero(s, ',');
    let last_d = last_pos_or_zero(s, '.');
    ||| count_char(s, '.') > 1
    ||| (last_c > last_d && commas <= 1)
    ||| (force_comma && commas <= 1)
}

/// The normalised form of a candidate numeric string: `.` becomes the only
/// decimal separator.  When the comma is decimal, all `.` are removed from
/// the part before the last `,`, which itself becomes a `.`; otherwise every
/// `,` is removed as a thousands separator.
pub open spec fn correct_spec(s: Seq<char>, force_comma: bool) -> Seq<char> {
    if comma_is_decimal(s, force_comma) {
        if count_char(s, ',') < 1 {
            remove_char(s, '.')
        } else {
            let last_c = last_pos_or_zero(s, ',');
            remove_char(s.subrange(0, last_c), '.') + seq!['.'] + s.subrange(
                last_c + 1,
                s.len() as int,
            )
        }
    } else {
        remove_char(s, ',')
    }
}

/// A scanned candidate is finally trimmed of trailing `.` and then `,`.
pub open spec fn sanitize_spec(s: Seq<char>) -> Seq<char> {
    trim_trailing(trim_trailing(s, '.'), ',')
}

/// Count occurrences of `c` in `v`.
fn count_char_in(v: &Vec<char>, c: char) -> (r: usize)
    ensures
        r as int == count_char(v@, c),
{
    proof {
        lemma_count_and_last_pos(v@, c);
    }
    let mut i: usize = 0;
    let mut cnt: usize = 0;
    while i < v.len()
        invariant
            i <= v@.len(),
            cnt as int == count_char(v@.take(i as int), c),
            count_char(v@.take(i as int), c) <= i,
        decreases v@.len() - i,
    {
        proof {
            assert(v@.take(i + 1).drop_last() =~= v@.take(i as int));
            assert(v@.take(i + 1).last() == v@[i as int]);
        }
        if v[i] == c {
            cnt = cnt + 1;
        }
        i = i + 1;
    }
    proof {
        assert(v@.take(v@.len() as int) =~= v@);
    }
    cnt
}

/// The last index holding `c`, or 0 when `c` is absent.
fn last_pos_in(v: &Vec<char>, c: char) -> (r: usize)
    ensures
        r as int == last_pos_or_zero(v@, c),
{
    proof {
        assert(v@.take(v@.len() as int) =~= v@);
    }
    let mut j: usize = v.len();
    while j > 0
        invariant
            j <= v@.len(),
            last_pos_or_zero(v@, c) == last_pos_or_zero(v@.take(j as int), c),
        decreases j,
    {
        proof {
            assert(v@.take(j as int).drop_last() =~= v@.take(j - 1));
            assert(v@.take(j as int).last() == v@[j - 1]);
        }
        if v[j - 1] == c {
            return j - 1;
        }
        j = j - 1;
    }
    0
}

/// The subrange `v[from..to]` as a fresh vector.
pub fn subvec(v: &Vec<char>, from: usize, to: usize) -> (r: Vec<char>)
    requires
        from <= to <= v@.len(),
    ensures
        r@ == v@.subrange(from as int, to as int),
{
    let mut out: Vec<char> = Vec::new();
    let mut i: usize = from;
    while i < to
        invariant
            from <= i <= to <= v@.len(),
            out@ == v@.subrange(from as int, i as int),
        decreases to - i,
    {
        out.push(v[i]);
        i = i + 1;
        assert(out@ =~= v@.subrange(from as int, i as int));
    }
    out
}

/// `v` with every occurrence of `c` removed.
fn remove_char_in(v: &Vec<char>, c: char) -> (r: Vec<char>)
    ensures
        r@ == remove_char(v@, c),
{
    let mut out: Vec<char> = Vec::new();
    let mut i: usize = 0;
    while i < v.len()
        invariant
            i <= v@.len(),
            out@ == remove_char(v@.take(i as int), c),
        decreases v@.len() - i,
    {
        proof {
            assert(v@.take(i + 1).drop_last() =~= v@.take(i as int));
            assert(v@.take(i + 1).last() == v@[i as int]);
        }
        if v[i] != c {
            out.push(v[i]);
        }
        i = i + 1;
        assert(out@ =~= remove_char(v@.take(i as int), c));
    }
    proof {
        assert(v@.take(v@.len() as int) =~= v@);
    }
    out
}

/// `v` with every trailing occurrence of `c` removed.
fn trim_trailing_in(v: &Vec<char>, c: char) -> (r: Vec<char>)
    ensures
        r@ == trim_trailing(v@, c),
{
    proof {
        assert(v@.take(v@.len() as int) =~= v@);
    }
    let mut end: usize = v.len();
    while end > 0 && v[end - 1] == c
        invariant
            end <= v@.len(),
            trim_trailing(v@, c) == trim_trailing(v@.take(end as int), c),
        decreases end,
    {
        proof {
            assert(v@.take(end as int).drop_last() =~= v@.take(end - 1));
            assert(v@.take(end as int).last() == v@[end - 1]);
        }
        end = end - 1;
    }
    proof {
        assert(v@.take(v@.len() as int) =~= v@);
        assert(trim_trailing(v@.take(end as int), c) == v@.take(end as int));
    }
    subvec(v, 0, end)
}

/// Normalise a candidate numeric string so that `.` is the only decimal
/// separator: commas become the decimal point under the rule of
/// `comma_is_decimal`, and are removed as thousands separators otherwise.
pub fn correct_numeric_vec(v: &Vec<char>, force_comma: bool) -> (r: Vec<char>)
    ensures
        r@ == correct_spec(v@, force_comma),
{
    proof {
        lemma_count_and_last_pos(v@, ',');
        lemma_count_and_last_pos(v@, '.');
    }
    let commas = count_char_in(v, ',');
    let dots = count_char_in(v, '.');
    let last_c = last_pos_in(v, ',');
    let last_d = last_pos_in(v, '.');
    if dots > 1 || (last_c > last_d && commas <= 1) || (force_comma && commas <= 1) {
        if commas < 1 {
            remove_char_in(v, '.')
        } else {
            proof {
                assert(count_char(v@, ',') >= 1);
                assert(last_c < v.len());
            }
            let head = subvec(v, 0, last_c);
            let tail = subvec(v, last_c + 1, v.len());
            let mut out = remove_char_in(&head, '.');
            out.push('.');
            let mut k: usize = 0;
            while k < tail.len()
                invariant
                    k <= tail@.len(),
                    out@ == remove_char(v@.subrange(0, last_pos_or_zero(v@, ',')), '.')
                        + seq!['.'] + tail@.take(k as int),
                decreases tail@.len() - k,
            {
                out.push(tail[k]);
                k = k + 1;
                assert(out@ =~= remove_char(v@.subrange(0, last_pos_or_zero(v@, ',')), '.')
                    + seq!['.'] + tail@.take(k as int));
            }
            proof {
                assert(tail@.take(tail@.len() as int) =~= tail@);
            }
            out
        }
    } else {
        remove_char_in(v, ',')
    }
}

/// Normalise the separators of a numeric string: under the auto-detect or
/// forced comma-as-decimal policy, return the same number written with `.`
/// as the sole decimal separator and no thousands separators.
pub fn correct_numeric_string(s: &str, force_comma: bool) -> (r: String)
    ensures
        r@ == correct_spec(s@, force_comma),
{
    let v = chars_vec(s);
    let out = correct_numeric_vec(&v, force_comma);
    string_of(&out)
}

// ---------------------------------------------------------------------------
// The numeric-token scanner.
// ---------------------------------------------------------------------------

/// A character the scanner treats as a candidate decimal or thousands
/// separator: `.`, `,`, or the one-dot-leader codepoint, which is normalised
/// to `.` when buffered.
pub open spec fn is_scan_sep(c: char) -> bool {
    c == '.' || c == ',' || c == '\u{2024}'
}

/// The scanner's running state between characters: the previous character,
/// the buffered candidate, the number of digits gathered since the candidate
/// began or since its last separator, and whether the previous character was
/// a still-unconfirmed separator.
pub struct ScanState {
    pub prev: char,
    pub buf: Seq<char>,
    pub run: nat,
    pub sep: bool,
}

/// The state before any character has been read.
pub open spec fn scan_init() -> ScanState {
    ScanState { prev: ' ', buf: Seq::empty(), run: 0, sep: false }
}

/// Token emission: when a candidate ends with at least one gathered digit,
/// the raw buffer is emitted and the buffer and digit count reset.
pub open spec fn scan_finish(st: ScanState, is_end: bool) -> (ScanState, Seq<Seq<char>>) {
    if is_end && st.run > 0 {
        (ScanState { prev: st.prev, buf: Seq::empty(), run: 0, sep: st.sep }, seq![st.buf])
    } else {
        (st, Seq::<Seq<char>>::empty())
    }
}

/// One scanner transition on character `c` (`is_last` marks the final
/// character of the input).  A pending separator followed by a non-digit is
/// dropped from the buffer; a digit extends the candidate (claiming an
/// immediately preceding `-`); a separator after a digit is buffered unless
/// it ends the input; anything else terminates the candidate.
pub open spec fn scan_step(st: ScanState, c: char, is_last: bool) -> (ScanState, Seq<Seq<char>>) {
    let stripped = st.sep && !is_dec_digit(c) && st.buf.len() > 1;
    let buf0 = if stripped {
        st.buf.drop_last()
    } else {
        st.buf
    };
    let run0 = if stripped {
        buf0.len()
    } else {
        st.run
    };
    let end0 = is_last || stripped;
    if is_dec_digit(c) {
        let buf1 = if st.prev == '-' {
            buf0.push('-').push(c)
        } else {
            buf0.push(c)
        };
        scan_finish(ScanState { prev: c, buf: buf1, run: run0 + 1, sep: false }, end0)
    } else if is_dec_digit(st.prev) {
        if is_scan_sep(c) {
            if is_last {
                scan_finish(ScanState { prev: c, buf: buf0, run: run0, sep: true }, true)
            } else {
                let kept: char = if c == ',' {
                    ','
                } else {
                    '.'
                };
                scan_finish(
                    ScanState { prev: c, buf: buf0.push(kept), run: 0, sep: true },
                    end0,
                )
            }
        } else {
            scan_finish(ScanState { prev: c, buf: buf0, run: run0, sep: st.sep }, true)
        }
    } else {
        scan_finish(ScanState { prev: c, buf: buf0, run: run0, sep: false }, true)
    }
}

/// The raw candidates emitted by running the scanner from position `i` in
/// state `st`, appended to those already emitted.
pub open spec fn scan_from(s: Seq<char>, i: int, st: ScanState, out: Seq<Seq<char>>) -> Seq<
    Seq<char>,
>
    decreases s.len() - i,
    when 0 <= i <= s.len()
{
    if i >= s.len() {
        out
    } else {
        let step = scan_step(st, s[i], i == s.len() - 1);
        scan_from(s, i + 1, step.0, out + step.1)
    }
}

/// The raw numeric candidates of a full scan of `s`, before normalisation.
pub open spec fn raw_tokens(s: Seq<char>) -> Seq<Seq<char>> {
    scan_from(s, 0, scan_init(), Seq::empty())
}

/// The final output of a scan: each raw candidate normalised under the
/// separator policy and trimmed of trailing separators.
pub open spec fn scan_tokens_spec(s: Seq<char>, force_comma: bool) -> Seq<Seq<char>> {
    raw_tokens(s).map_values(|t: Seq<char>| sanitize_spec(correct_spec(t, force_comma)))
}

/// Trim a candidate of trailing `.` and then trailing `,`.
fn sanitize_vec(v: &Vec<char>) -> (r: Vec<char>)
    ensures
        r@ == sanitize_spec(v@),
{
    let t1 = trim_trailing_in(v, '.');
    trim_trailing_in(&t1, ',')
}

/// Scan `s` left to right and return every numeric candidate found, each
/// normalised so that `.` is its only decimal separator and trimmed of
/// trailing separators.
pub fn to_numeric_strings_conditional(s: &str, force_comma: bool) -> (r: Vec<String>)
    ensures
        r@.map_values(|t: String| t@) == scan_tokens_spec(s@, force_comma),
{
    let v = chars_vec(s);
    let n = v.len();
    let mut out: Vec<String> = Vec::new();
    let ghost mut raw_acc: Seq<Seq<char>> = Seq::empty();
    let mut prev: char = ' ';
    let mut buf: Vec<char> = Vec::new();
    let mut run: usize = 0;
    let mut sep: bool = false;
    let mut i: usize = 0;
    while i < n
        invariant
            n == v@.len(),
            v@ == s@,
            i <= n,
            raw_tokens(s@) == scan_from(
                s@,
                i as int,
                ScanState { prev, buf: buf@, run: run as nat, sep },
                raw_acc,
            ),
            out@.map_values(|t: String| t@) == raw_acc.map_values(
                |t: Seq<char>| sanitize_spec(correct_spec(t, force_comma)),
            ),
            run <= buf@.len(),
            buf@.len() <= i,
            i == 0 ==> prev == ' ',
            prev == '-' ==> buf@.len() == 0,
            sep ==> !is_dec_digit(prev),
            run == 0 ==> (buf@.len() == 0 || sep),
            i < n ==> (is_dec_digit(prev) ==> (run > 0 && buf@.len() > 0)),
            i < n ==> (sep ==> buf@.len() >= 2),
        decreases n - i,
    {
        let ghost st_pre = ScanState { prev, buf: buf@, run: run as nat, sep };
        let ghost raw_pre = raw_acc;
        let c = v[i];
        let is_last = i == n - 1;
        let mut is_end = is_last;
        if sep && !is_digit_char(c) && buf.len() > 1 {
            let _ = buf.pop();
            proof {
                assert(buf@ =~= st_pre.buf.drop_last());
            }
            is_end = true;
            run = buf.len();
        }
        if is_digit_char(c) {
            if prev == '-' {
                buf.push('-');
            }
            buf.push(c);
            run = run + 1;
            sep = false;
        } else if is_digit_char(prev) {
            if c == '.' || c == ',' || c == '\u{2024}' {
                if is_last {
                    is_end = true;
                } else {
                    buf.push(if c == ',' { ',' } else { '.' });
                    run = 0;
                }
                sep = true;
            } else {
                is_end = true;
            }
        } else {
            is_end = true;
            sep = false;
        }
        if is_end && run > 0 {
            let ghost tok = buf@;
            let ghost out_pre = out@;
            proof {
                raw_acc = raw_acc.push(tok);
            }
            let corrected = correct_numeric_vec(&buf, force_comma);
            let trimmed = sanitize_vec(&corrected);
            let normalised = string_of(&trimmed);
            proof {
                assert(normalised@ == sanitize_spec(correct_spec(tok, force_comma)));
            }
            out.push(normalised);
            proof {
                assert(out@ == out_pre.push(normalised));
                assert(out@.map_values(|t: String| t@) =~= out_pre.map_values(|t: String| t@)
                    .push(normalised@));
                assert(raw_acc.map_values(|t: Seq<char>| sanitize_spec(correct_spec(t, force_comma)))
                    =~= raw_acc.drop_last().map_values(
                    |t: Seq<char>| sanitize_spec(correct_spec(t, force_comma)),
                ).push(sanitize_spec(correct_spec(tok, force_comma))));
                assert(raw_acc.drop_last() =~= raw_pre);
            }
            buf = Vec::new();
            run = 0;
        }
        prev = c;
        i = i + 1;
        proof {
            let step = scan_step(st_pre, c, i == n);
            let st_now = ScanState { prev, buf: buf@, run: run as nat, sep };
            assert(st_now == step.0);
            assert(raw_acc =~= raw_pre + step.1);
            assert(out@.map_values(|t: String| t@) =~= raw_acc.map_values(
                |t: Seq<char>| sanitize_spec(correct_spec(t, force_comma)),
            ));
        }
    }
    proof {
        assert(raw_tokens(s@) == raw_acc);
        assert(scan_tokens_spec(s@, force_comma) == raw_acc.map_values(
            |t: Seq<char>| sanitize_spec(correct_spec(t, force_comma)),
        ));
    }
    out
}

// ---------------------------------------------------------------------------
// Casting normalised numeric strings to integers.
// ---------------------------------------------------------------------------

/// Every character of `s` is a decimal digit.
pub open spec fn all_digits(s: Seq<char>) -> bool {
    forall|i: int| 0 <= i < s.len() ==> is_dec_digit(s[i])
}

/// The value of a run of decimal digits read in base ten.
pub open spec fn digits_value(s: Seq<char>) -> int
    decreases s.len(),
{
    if s.len() == 0 {
        0
    } else {
        digits_value(s.drop_last()) * 10 + dec_digit_value(s.last())
    }
}

/// An integer literal: at least one digit, with an optional leading `-`.
pub open spec fn is_int_literal(s: Seq<char>) -> bool {
    if s.len() > 0 && s[0] == '-' {
        s.len() >= 2 && all_digits(s.skip(1))
    } else {
        s.len() >= 1 && all_digits(s)
    }
}

/// The mathematical value an integer literal denotes.
pub open spec fn int_literal_value(s: Seq<char>) -> int {
    if s.len() > 0 && s[0] == '-' {
        -digits_value(s.skip(1))
    } else {
        digits_value(s)
    }
}

/// Whether an integer literal denotes a value representable as an `i64`.
pub open spec fn parseable_int(s: Seq<char>) -> bool {
    is_int_literal(s) && i64::MIN <= int_literal_value(s) <= i64::MAX
}

/// The value of a digit run is non-negative and never shrinks as the run is
/// extended to the right.
proof fn lemma_digits_value_monotone(s: Seq<char>, i: int)
    requires
        all_digits(s),
        0 <= i <= s.len(),
    ensures
        digits_value(s) >= digits_value(s.take(i)) >= 0,
    decreases s.len(),
{
    if s.len() == 0 {
        assert(s.take(i) =~= s);
    } else {
        assert(all_digits(s.drop_last()));
        lemma_digits_value_monotone(s.drop_last(), if i <= s.len() - 1 {
            i
        } else {
            s.len() - 1
        });
        lemma_digits_value_monotone(s.drop_last(), s.len() - 1);
        assert(s.drop_last().take(s.len() - 1) =~= s.drop_last());
        if i <= s.len() - 1 {
            assert(s.take(i) =~= s.drop_last().take(i));
        } else {
            assert(s.take(i) =~= s);
        }
        assert(is_dec_digit(s.last()));
        assert(dec_digit_value(s.last()) >= 0);
    }
}

/// Parse an integer literal into an `i64`.  Returns the denoted value
/// exactly when the string is an integer literal whose value fits; every
/// other string yields nothing.
pub fn parse_integer(s: &str) -> (r: Option<i64>)
    ensures
        r is Some <==> parseable_int(s@),
        r is Some ==> r->0 as int == int_literal_value(s@),
{
    let v = chars_vec(s);
    let n = v.len();
    if n == 0 {
        return None;
    }
    let negative = v[0] == '-';
    let start: usize = if negative {
        1
    } else {
        0
    };
    let ghost digits = if negative {
        s@.skip(1)
    } else {
        s@
    };
    if start >= n {
        // a bare sign carries no digits
        return None;
    }
    // accumulate the negated value so that i64::MIN is representable
    let mut acc: i64 = 0;
    let mut i: usize = start;
    while i < n
        invariant
            n == v@.len() == s@.len(),
            v@ == s@,
            start <= i <= n,
            start == if negative {
                1int
            } else {
                0int
            },
            negative == (s@[0] == '-'),
            digits == if negative {
                s@.skip(1)
            } else {
                s@
            },
            n > start,
            all_digits(digits.take(i - start)),
            acc as int == -digits_value(digits.take(i - start)),
            i64::MIN <= acc <= 0,
        decreases n - i,
    {
        let c = v[i];
        if !is_digit_char(c) {
            proof {
                assert(digits[i - start] == s@[i as int]);
                assert(!all_digits(digits));
            }
            return None;
        }
        let d = (c as u32 - '0' as u32) as i64;
        proof {
            assert(digits.take(i - start + 1).drop_last() =~= digits.take(i - start));
            assert(digits.take(i - start + 1).last() == digits[i - start]);
            assert(digits[i - start] == s@[i as int]);
        }
        if acc < i64::MIN / 10 || (acc == i64::MIN / 10 && d > 8) {
            // the running value has already left the representable range,
            // and appending further digits can only move it further out
            proof {
                let pref = digits.take(i - start + 1);
                assert(digits_value(pref) > -(i64::MIN as int));
                if is_int_literal(s@) {
                    lemma_digits_value_monotone(digits, i - start + 1);
                    assert(digits_value(digits) >= digits_value(pref));
                    assert(digits.take(digits.len() as int) =~= digits);
                    if negative {
                        assert(int_literal_value(s@) == -digits_value(digits));
                        assert(int_literal_value(s@) < i64::MIN);
                    } else {
                        assert(int_literal_value(s@) == digits_value(digits));
                        assert(int_literal_value(s@) > i64::MAX);
                    }
                }
            }
            return None;
        }
        acc = acc * 10 - d;
        i = i + 1;
    }
    proof {
        assert(digits.take(n - start) =~= digits);
        assert(all_digits(digits));
        assert(is_int_literal(s@));
    }
    if negative {
        Some(acc)
    } else {
        if acc == i64::MIN {
            // the magnitude fits only with a leading minus sign
            proof {
                assert(int_literal_value(s@) > i64::MAX);
            }
            None
        } else {
            Some(-acc)
        }
    }
}

// ---------------------------------------------------------------------------
// Extracting numbers from prose.
// ---------------------------------------------------------------------------

/// The integers denoted by the parseable candidates among `ts`, in order.
pub open spec fn numbers_of(ts: Seq<Seq<char>>) -> Seq<i64>
    decreases ts.len(),
{
    if ts.len() == 0 {
        Seq::empty()
    } else {
        numbers_of(ts.drop_last()) + if parseable_int(ts.last()) {
            seq![(int_literal_value(ts.last()) as i64)]
        } else {
            Seq::<i64>::empty()
        }
    }
}

/// Scan `s` for numeric candidates, normalise each under the separator
/// policy, and return every candidate that denotes an `i64`, in order.
pub fn to_numbers_conditional(s: &str, force_comma: bool) -> (r: Vec<i64>)
    ensures
        r@ == numbers_of(scan_tokens_spec(s@, force_comma)),
{
    let tokens = to_numeric_strings_conditional(s, force_comma);
    let ghost toks = scan_tokens_spec(s@, force_comma);
    let mut out: Vec<i64> = Vec::new();
    let mut i: usize = 0;
    while i < tokens.len()
        invariant
            tokens@.map_values(|t: String| t@) == toks,
            i <= tokens@.len(),
            out@ == numbers_of(toks.take(i as int)),
        decreases tokens@.len() - i,
    {
        proof {
            assert(toks.take(i + 1).drop_last() =~= toks.take(i as int));
            assert(toks.take(i + 1).last() == toks[i as int]);
            assert(toks[i as int] == tokens@[i as int]@);
        }
        match parse_integer(tokens[i].as_str()) {
            Some(value) => {
                out.push(value);
                assert(out@ =~= numbers_of(toks.take(i + 1)));
            },
            None => {
                assert(out@ =~= numbers_of(toks.take(i + 1)));
            },
        }
        i = i + 1;
    }
    proof {
        assert(toks.take(toks.len() as int) =~= toks);
    }
    out
}

/// Scan for numeric candidates under the auto-detect separator policy.
pub fn to_numeric_strings(s: &str) -> (r: Vec<String>)
    ensures
        r@.map_values(|t: String| t@) == scan_tokens_spec(s@, false),
{
    to_numeric_strings_conditional(s, false)
}

/// Scan for numeric candidates, always reading dots as thousands
/// separators and a comma as the decimal separator.
pub fn to_numeric_strings_euro(s: &str) -> (r: Vec<String>)
    ensures
        r@.map_values(|t: String| t@) == scan_tokens_spec(s@, true),
{
    to_numeric_strings_conditional(s, true)
}

/// The integers extracted from `s` under the auto-detect policy.
pub fn to_numbers(s: &str) -> (r: Vec<i64>)
    ensures
        r@ == numbers_of(scan_tokens_spec(s@, false)),
{
    to_numbers_conditional(s, false)
}

/// The integers extracted from `s` under the forced comma-as-decimal
/// policy.
pub fn to_numbers_euro(s: &str) -> (r: Vec<i64>)
    ensures
        r@ == numbers_of(scan_tokens_spec(s@, true)),
{
    to_numbers_conditional(s, true)
}

/// The first integer a scan of `s` yields under the given policy, if any.
pub open spec fn first_number(s: Seq<char>, force_comma: bool) -> Option<i64> {
    let nums = numbers_of(scan_tokens_spec(s, force_comma));
    if nums.len() > 0 {
        Some(nums[0])
    } else {
        None
    }
}

/// The first integer found in `s` under the auto-detect policy, if any.
pub fn to_first_number(s: &str) -> (r: Option<i64>)
    ensures
        r == first_number(s@, false),
{
    let nums = to_numbers_conditional(s, false);
    if nums.len() > 0 {
        Some(nums[0])
    } else {
        None
    }
}

/// The first integer found in `s` under the forced comma-as-decimal policy,
/// if any.
pub fn to_first_number_euro(s: &str) -> (r: Option<i64>)
    ensures
        r == first_number(s@, true),
{
    let nums = to_numbers_conditional(s, true);
    if nums.len() > 0 {
        Some(nums[0])
    } else {
        None
    }
}

/// The candidates joined with single spaces.
pub open spec fn joined_with_space(ts: Seq<Seq<char>>) -> Seq<char>
    decreases ts.len(),
{
    if ts.len() == 0 {
        Seq::empty()
    } else if ts.len() == 1 {
        ts[0]
    } else {
        joined_with_space(ts.drop_last()) + seq![' '] + ts.last()
    }
}

/// Remove everything that is not part of a numeric candidate: the
/// normalised candidates of a scan, joined with single spaces.
pub fn strip_non_numeric(s: &str) -> (r: String)
    ensures
        r@ == joined_with_space(scan_tokens_spec(s@, false)),
{
    let tokens = to_numeric_strings_conditional(s, false);
    let ghost toks = scan_tokens_spec(s@, false);
    let mut out = String::new();
    let mut i: usize = 0;
    while i < tokens.len()
        invariant
            tokens@.map_values(|t: String| t@) == toks,
            i <= tokens@.len(),
            out@ == joined_with_space(toks.take(i as int)),
        decreases tokens@.len() - i,
    {
        proof {
            assert(toks.take(i + 1).drop_last() =~= toks.take(i as int));
            assert(toks.take(i + 1).last() == toks[i as int]);
            assert(toks[i as int] == tokens@[i as int]@);
        }
        if i > 0 {
            push_char(&mut out, ' ');
        }
        out.append(tokens[i].as_str());
        i = i + 1;
        assert(out@ =~= joined_with_space(toks.take(i as int)));
    }
    proof {
        assert(toks.take(toks.len() as int) =~= toks);
    }
    out
}

/// The first integers of the parts that yield one, in order.
pub open spec fn split_numbers(parts: Seq<Seq<char>>) -> Seq<i64>
    decreases parts.len(),
{
    if parts.len() == 0 {
        Seq::empty()
    } else {
        split_numbers(parts.drop_last()) + match first_number(parts.last(), false) {
            Some(v) => seq![v],
            None => Seq::<i64>::empty(),
        }
    }
}

/// Split on a separator and return the first number of every segment that
/// has one.
pub fn split_to_numbers(s: &str, pattern: &str) -> (r: Vec<i64>)
    ensures
        r@ == split_numbers(
            crate::segments::nonempty_parts(crate::segments::parts_of(s@, pattern@)),
        ),
{
    let parts = crate::segments::to_segments(s, pattern);
    let ghost views = crate::segments::nonempty_parts(crate::segments::parts_of(s@, pattern@));
    let mut out: Vec<i64> = Vec::new();
    let mut i: usize = 0;
    while i < parts.len()
        invariant
            parts@.map_values(|t: String| t@) == views,
            i <= parts@.len(),
            out@ == split_numbers(views.take(i as int)),
        decreases parts@.len() - i,
    {
        proof {
            assert(views.take(i + 1).drop_last() =~= views.take(i as int));
            assert(views.take(i + 1).last() == views[i as int]);
            assert(views[i as int] == parts@[i as int]@);
        }
        match to_first_number(parts[i].as_str()) {
            Some(v) => {
                out.push(v);
                assert(out@ =~= split_numbers(views.take(i + 1)));
            },
            None => {
                assert(out@ =~= split_numbers(views.take(i + 1)));
            },
        }
        i = i + 1;
    }
    proof {
        assert(views.take(views.len() as int) =~= views);
    }
    out
}

// ---------------------------------------------------------------------------
// The shape of raw scanner candidates, and strictness after normalisation.
// ---------------------------------------------------------------------------

/// A character that can stand in a raw candidate: a digit, a leading minus
/// or an interior separator.
pub open spec fn token_char(c: char) -> bool {
    is_dec_digit(c) || c == '-' || c == '.' || c == ','
}

/// A separator kept in the buffer.
pub open spec fn is_kept_sep(c: char) -> bool {
    c == '.' || c == ','
}

/// The shape of every raw candidate the scanner emits: non-empty, ending in
/// a digit, starting with a digit or a minus (the minus only at position 0,
/// followed by a digit), with every separator standing between two digits.
pub open spec fn token_shape(t: Seq<char>) -> bool {
    &&& t.len() > 0
    &&& is_dec_digit(t.last())
    &&& (t[0] == '-' || is_dec_digit(t[0]))
    &&& forall|i: int| 0 <= i < t.len() ==> token_char(#[trigger] t[i])
    &&& forall|i: int| 0 <= i < t.len() && #[trigger] t[i] == '-' ==> i == 0
    &&& forall|i: int|
        0 <= i < t.len() && is_kept_sep(#[trigger] t[i]) ==> 0 < i < t.len() - 1 && is_dec_digit(
            t[i - 1],
        ) && is_dec_digit(t[i + 1])
}

/// A character occurs exactly when its count is positive.
proof fn lemma_count_zero(s: Seq<char>, c: char)
    ensures
        (count_char(s, c) == 0) == (forall|i: int| 0 <= i < s.len() ==> s[i] != c),
    decreases s.len(),
{
    lemma_count_and_last_pos(s, c);
    if s.len() > 0 {
        lemma_count_zero(s.drop_last(), c);
        lemma_count_and_last_pos(s.drop_last(), c);
        if count_char(s, c) == 0 {
            assert forall|i: int| 0 <= i < s.len() implies s[i] != c by {
                if i < s.len() - 1 {
                    assert(s.drop_last()[i] == s[i]);
                }
            }
        } else {
            if s.last() != c {
                let w = choose|i: int| 0 <= i < s.drop_last().len() && s.drop_last()[i] == c;
                assert(s[w] == c);
            }
        }
    }
}

/// A character confined to position 0 has count at most one.
proof fn lemma_count_at_most_head(s: Seq<char>, c: char)
    requires
        forall|i: int| 0 <= i < s.len() && #[trigger] s[i] == c ==> i == 0,
    ensures
        count_char(s, c) <= 1,
        s.len() > 0 && s[0] != c ==> count_char(s, c) == 0,
    decreases s.len(),
{
    if s.len() > 0 {
        assert forall|i: int| 0 <= i < s.drop_last().len() && #[trigger] s.drop_last()[i] == c
            implies i == 0 by {
            assert(s[i] == s.drop_last()[i]);
        }
        lemma_count_at_most_head(s.drop_last(), c);
        if s.len() > 1 && s.last() == c {
            assert(s[s.len() - 1] == c);
        }
        lemma_count_zero(s.drop_last(), c);
    }
}

/// With count at most one, no two distinct positions hold the character.
proof fn lemma_count_le_one_unique(s: Seq<char>, c: char, i: int, j: int)
    requires
        count_char(s, c) <= 1,
        0 <= i < j < s.len(),
        s[i] == c,
    ensures
        s[j] != c,
    decreases s.len(),
{
    lemma_count_and_last_pos(s.drop_last(), c);
    if j == s.len() - 1 {
        if s[j] == c {
            lemma_count_zero(s.drop_last(), c);
            assert(s.drop_last()[i] == c);
        }
    } else {
        assert(s.drop_last()[i] == s[i]);
        if s.last() == c {
            lemma_count_zero(s.drop_last(), c);
            assert(s.drop_last()[i] == c);
            assert(false);
        }
        lemma_count_le_one_unique(s.drop_last(), c, i, j);
        assert(s.drop_last()[j] == s[j]);
    }
}

/// Removing a character changes no other character's count.
proof fn lemma_remove_count_other(s: Seq<char>, c: char, d: char)
    requires
        c != d,
    ensures
        count_char(remove_char(s, c), d) == count_char(s, d),
    decreases s.len(),
{
    if s.len() > 0 {
        lemma_remove_count_other(s.drop_last(), c, d);
        if s.last() == c {
            assert(remove_char(s, c) =~= remove_char(s.drop_last(), c));
        } else {
            assert(remove_char(s, c).drop_last() =~= remove_char(s.drop_last(), c));
            assert(remove_char(s, c).last() == s.last());
        }
    }
}

/// Removal keeps the first character when it is not the one removed, and
/// keeps the last character likewise.
proof fn lemma_remove_ends(s: Seq<char>, c: char)
    requires
        s.len() > 0,
    ensures
        s[0] != c ==> remove_char(s, c).len() > 0 && remove_char(s, c)[0] == s[0],
        s.last() != c ==> remove_char(s, c).len() > 0 && remove_char(s, c).last() == s.last(),
    decreases s.len(),
{
    if s.len() == 1 {
    } else {
        lemma_remove_ends(s.drop_last(), c);
        assert(s.drop_last()[0] == s[0]);
        if s[0] != c {
            assert(remove_char(s, c)[0] == remove_char(s.drop_last(), c)[0]);
        }
    }
}

/// A non-empty sequence ending in neither separator is already trimmed.
proof fn lemma_sanitize_identity(s: Seq<char>)
    requires
        s.len() > 0,
        s.last() != '.',
        s.last() != ',',
    ensures
        sanitize_spec(s) == s,
{
}

/// A candidate whose comma-as-decimal reading would scatter separators: the
/// comma branch applies while the candidate holds a comma, and either holds
/// two or more commas or puts a dot after its last comma.  Only these
/// candidates normalise to something other than a strict numeric literal.
pub open spec fn mixed_separator_token(t: Seq<char>, force_comma: bool) -> bool {
    &&& comma_is_decimal(t, force_comma)
    &&& count_char(t, ',') >= 1
    &&& (count_char(t, ',') >= 2 || last_pos_or_zero(t, '.') > last_pos_or_zero(t, ','))
}

/// A strict result from removing one separator: removing `c` from a shaped
/// candidate without any other separator class present leaves digits, at
/// most a leading minus and at most one dot.
proof fn lemma_removal_strict(t: Seq<char>, c: char)
    requires
        token_shape(t),
        c == '.' || c == ',',
        c == '.' ==> count_char(t, ',') == 0,
        c == ',' ==> count_char(t, '.') <= 1,
    ensures
        strict_numeric(remove_char(t, c)),
{
    let r = remove_char(t, c);
    lemma_remove_char_chars(t, c);
    lemma_remove_ends(t, c);
    lemma_count_and_last_pos(t, c);
    lemma_count_at_most_head(t, '-');
    lemma_remove_count_other(t, c, '-');
    if c == ',' {
        lemma_remove_count_other(t, c, '.');
    } else {
        lemma_remove_count_other(t, c, ',');
        lemma_count_zero(t, ',');
        lemma_count_zero(r, ',');
    }
    assert(r.len() > 0);
    assert(r.last() == t.last());
    assert forall|i: int| 0 <= i < r.len() implies valid_numeric_char_at(r, i) by {
        assert(r[i] != c);
        let j = choose|j: int| 0 <= j < t.len() && t[j] == r[i];
        assert(token_char(r[i]));
        if r[i] == '-' {
            if i > 0 {
                assert(r[0] == t[0]);
                assert(t[0] == '-' || is_dec_digit(t[0]));
                if t[0] == '-' {
                    assert(count_char(t, '-') <= 1);
                    assert(count_char(r, '-') <= 1);
                    lemma_count_le_one_unique(r, '-', 0, i);
                } else {
                    lemma_count_at_most_head(t, '-');
                    assert(count_char(t, '-') == 0);
                    lemma_count_zero(r, '-');
                }
                assert(false);
            }
        } else if r[i] == '.' {
            assert(c == ',');
            assert(count_char(r, '.') <= 1);
            if i == r.len() - 1 {
                assert(r[i] == r.last());
                assert(is_dec_digit(t.last()));
                assert(false);
            }
            assert forall|k: int| 0 <= k < i implies r[k] != '.' by {
                if r[k] == '.' {
                    lemma_count_le_one_unique(r, '.', k, i);
                }
            }
        } else if r[i] == ',' {
            if c == ',' {
                assert(false);
            } else {
                assert(false);
            }
        } else {
            assert(is_dec_digit(r[i]));
        }
    }
}

/// A shaped candidate that is not a mixed-separator candidate normalises,
/// after trimming, to a strict numeric literal, under either policy.
pub proof fn lemma_normalised_token_strict(t: Seq<char>, force_comma: bool)
    requires
        token_shape(t),
        !mixed_separator_token(t, force_comma),
    ensures
        strict_numeric(sanitize_spec(correct_spec(t, force_comma))),
{
    lemma_count_and_last_pos(t, ',');
    lemma_count_and_last_pos(t, '.');
    let commas = count_char(t, ',');
    let dots = count_char(t, '.');
    if comma_is_decimal(t, force_comma) {
        if commas < 1 {
            lemma_count_zero(t, ',');
            lemma_removal_strict(t, '.');
            let r = remove_char(t, '.');
            lemma_remove_ends(t, '.');
            lemma_sanitize_identity(r);
        } else {
            // not mixed: exactly one comma, and every dot precedes it
            let p = last_pos_or_zero(t, ',');
            assert(commas == 1);
            assert(t[p] == ',');
            assert(0 < p < t.len() - 1);
            let head = t.subrange(0, p);
            let tail = t.subrange(p + 1, t.len() as int);
            let rh = remove_char(head, '.');
            let r = rh + seq!['.'] + tail;
            assert(correct_spec(t, force_comma) == r);
            // the tail holds digits only
            assert forall|j: int| 0 <= j < tail.len() implies is_dec_digit(#[trigger] tail[j]) by {
                let tj = p + 1 + j;
                assert(tail[j] == t[tj]);
                assert(token_char(t[tj]));
                if t[tj] == ',' {
                    lemma_count_le_one_unique(t, ',', p, tj);
                }
                if t[tj] == '.' {
                    // every dot lies at or before the last dot, which does
                    // not pass the last comma
                    if count_char(t, '.') == 0 {
                        lemma_count_zero(t, '.');
                    } else {
                        assert(last_pos_or_zero(t, '.') <= p);
                        assert(t[tj] != '.');
                    }
                    assert(false);
                }
                if t[tj] == '-' {
                    assert(tj == 0);
                    assert(false);
                }
            }
            // the head holds digits, dots and at most a leading minus
            assert(head.len() > 0);
            assert(head[0] == t[0]);
            assert forall|j: int| 0 <= j < head.len() implies #[trigger] head[j] != ',' by {
                assert(head[j] == t[j]);
                if t[j] == ',' && j < p {
                    lemma_count_le_one_unique(t, ',', j, p);
                }
            }
            lemma_count_zero(head, ',');
            lemma_remove_char_chars(head, '.');
            lemma_remove_ends(head, '.');
            lemma_remove_count_other(head, '.', ',');
            lemma_remove_count_other(head, '.', '-');
            lemma_count_zero(rh, '.');
            lemma_count_zero(rh, ',');
            assert(rh.len() > 0);
            assert forall|j: int| 0 <= j < head.len() && #[trigger] head[j] == '-' implies j == 0
                by {
                assert(head[j] == t[j]);
            }
            lemma_count_at_most_head(head, '-');
            // every position of the result is acceptable
            assert(r.len() == rh.len() + 1 + tail.len());
            assert(tail.len() > 0);
            assert(tail.last() == t.last());
            assert forall|i: int| 0 <= i < r.len() implies valid_numeric_char_at(r, i) by {
                if i < rh.len() {
                    assert(r[i] == rh[i]);
                    let j = choose|j: int| 0 <= j < head.len() && head[j] == rh[i];
                    assert(token_char(t[j]));
                    if rh[i] == '-' {
                        if i > 0 {
                            assert(rh[0] == head[0]);
                            if head[0] == '-' {
                                assert(count_char(rh, '-') <= 1);
                                lemma_count_le_one_unique(rh, '-', 0, i);
                            } else {
                                assert(count_char(head, '-') == 0);
                                lemma_count_zero(rh, '-');
                            }
                            assert(false);
                        }
                    } else if rh[i] == '.' || rh[i] == ',' {
                        assert(false);
                    } else {
                        assert(is_dec_digit(rh[i]));
                    }
                } else if i == rh.len() {
                    assert(r[i] == '.');
                    assert(i < r.len() - 1);
                    assert forall|k: int| 0 <= k < i implies r[k] != '.' by {
                        assert(r[k] == rh[k]);
                    }
                } else {
                    assert(r[i] == tail[i - rh.len() - 1]);
                    assert(is_dec_digit(r[i]));
                }
            }
            assert(strict_numeric(r));
            assert(r.last() == tail.last());
            lemma_sanitize_identity(r);
        }
    } else {
        assert(dots <= 1);
        lemma_removal_strict(t, ',');
        let r = remove_char(t, ',');
        lemma_remove_ends(t, ',');
        lemma_sanitize_identity(r);
    }
}

/// The scanner's state invariant before reading position `i` of an input
/// of length `n`: the digit count never exceeds the buffer, the buffer only
/// grows one character per input character, a pending minus leaves the
/// buffer empty, and the buffer is always a shaped candidate, possibly
/// extended by one pending separator.
spec fn scan_inv(st: ScanState, i: int, n: int) -> bool {
    &&& st.run <= st.buf.len()
    &&& st.buf.len() <= i
    &&& (i == 0 ==> st.prev == ' ')
    &&& (st.prev == '-' ==> st.buf.len() == 0)
    &&& (st.sep ==> !is_dec_digit(st.prev))
    &&& (st.run == 0 ==> st.buf.len() == 0 || st.sep)
    &&& (i < n ==> (is_dec_digit(st.prev) ==> st.run > 0 && st.buf.len() > 0))
    &&& (i < n ==> (st.sep ==> st.buf.len() >= 2 && st.run == 0))
    &&& (st.sep && st.buf.len() >= 2 ==> is_kept_sep(st.buf.last()) && token_shape(
        st.buf.drop_last(),
    ))
    &&& (!st.sep && st.buf.len() > 0 ==> token_shape(st.buf))
}

/// Appending a digit to an empty buffer, a shaped candidate, or a shaped
/// candidate with one trailing separator yields a shaped candidate.
proof fn lemma_shape_push_digit(t: Seq<char>, c: char)
    requires
        is_dec_digit(c),
        t.len() == 0 || token_shape(t) || (t.len() >= 2 && is_kept_sep(t.last()) && token_shape(
            t.drop_last(),
        )),
    ensures
        token_shape(t.push(c)),
{
    let r = t.push(c);
    assert(r.last() == c);
    if t.len() == 0 {
        assert forall|i: int| 0 <= i < r.len() implies token_char(#[trigger] r[i]) by {}
    } else if token_shape(t) {
        assert(r[0] == t[0]);
        assert forall|i: int|
            0 <= i < r.len() && is_kept_sep(#[trigger] r[i]) implies 0 < i < r.len() - 1
            && is_dec_digit(r[i - 1]) && is_dec_digit(r[i + 1]) by {
            assert(i < t.len());
            assert(r[i] == t[i]);
            if i == t.len() - 1 {
                assert(is_dec_digit(t.last()));
                assert(false);
            }
            assert(r[i - 1] == t[i - 1]);
            assert(r[i + 1] == t[i + 1]);
        }
    } else {
        let base = t.drop_last();
        assert(r[0] == t[0]);
        assert(t[0] == base[0]);
        assert forall|i: int| 0 <= i < r.len() implies token_char(#[trigger] r[i]) by {
            if i < t.len() - 1 {
                assert(r[i] == base[i]);
            }
        }
        assert forall|i: int| 0 <= i < r.len() && #[trigger] r[i] == '-' implies i == 0 by {
            if i < t.len() - 1 {
                assert(r[i] == base[i]);
            } else if i == t.len() - 1 {
                assert(is_kept_sep(t.last()));
            }
        }
        assert forall|i: int|
            0 <= i < r.len() && is_kept_sep(#[trigger] r[i]) implies 0 < i < r.len() - 1
            && is_dec_digit(r[i - 1]) && is_dec_digit(r[i + 1]) by {
            if i < t.len() - 1 {
                assert(r[i] == base[i]);
                assert(r[i - 1] == base[i - 1]);
                assert(r[i + 1] == base[i + 1]);
            } else if i == t.len() - 1 {
                assert(base.last() == r[i - 1]);
                assert(is_dec_digit(base.last()));
                assert(r[i + 1] == c);
            }
        }
    }
}

/// One scanner transition preserves the state invariant, and any candidate
/// it emits is shaped.
proof fn lemma_scan_step_shapes(st: ScanState, c: char, is_last: bool, i: int, n: int)
    requires
        scan_inv(st, i, n),
        0 <= i < n,
        is_last == (i == n - 1),
    ensures
        scan_inv(scan_step(st, c, is_last).0, i + 1, n),
        forall|k: int|
            0 <= k < scan_step(st, c, is_last).1.len() ==> token_shape(
                #[trigger] scan_step(st, c, is_last).1[k],
            ),
{
    let step = scan_step(st, c, is_last);
    let stripped = st.sep && !is_dec_digit(c) && st.buf.len() > 1;
    let buf0 = if stripped {
        st.buf.drop_last()
    } else {
        st.buf
    };
    if is_dec_digit(c) {
        if st.prev == '-' {
            assert(buf0 =~= Seq::<char>::empty());
            assert(buf0.push('-').push(c) =~= seq!['-', c]);
            assert(token_shape(seq!['-', c]));
        } else {
            lemma_shape_push_digit(buf0, c);
        }
    } else {
        if stripped {
            assert(token_shape(buf0));
        }
        if is_dec_digit(st.prev) && is_scan_sep(c) && !is_last {
            let kept: char = if c == ',' {
                ','
            } else {
                '.'
            };
            assert(buf0.push(kept).drop_last() =~= buf0);
        }
    }
}

/// Every candidate the machine emits from a state satisfying the invariant
/// is shaped, provided those already emitted are.
proof fn lemma_scan_from_shapes(s: Seq<char>, i: int, st: ScanState, out: Seq<Seq<char>>)
    requires
        0 <= i <= s.len(),
        scan_inv(st, i, s.len() as int),
        forall|k: int| 0 <= k < out.len() ==> token_shape(#[trigger] out[k]),
    ensures
        forall|k: int|
            0 <= k < scan_from(s, i, st, out).len() ==> token_shape(
                #[trigger] scan_from(s, i, st, out)[k],
            ),
    decreases s.len() - i,
{
    if i < s.len() {
        let step = scan_step(st, s[i], i == s.len() - 1);
        lemma_scan_step_shapes(st, s[i], i == s.len() - 1, i, s.len() as int);
        assert forall|k: int| 0 <= k < (out + step.1).len() implies token_shape(
            #[trigger] (out + step.1)[k],
        ) by {
            if k < out.len() {
                assert((out + step.1)[k] == out[k]);
            } else {
                assert((out + step.1)[k] == step.1[k - out.len()]);
            }
        }
        lemma_scan_from_shapes(s, i + 1, step.0, out + step.1);
        assert(scan_from(s, i, st, out) == scan_from(s, i + 1, step.0, out + step.1));
    } else {
        assert(scan_from(s, i, st, out) == out);
    }
}

/// Every raw candidate of a full scan is shaped: digits with an optional
/// leading minus and separators standing only between digits.
pub proof fn lemma_raw_tokens_shape(s: Seq<char>)
    ensures
        forall|k: int|
            0 <= k < raw_tokens(s).len() ==> token_shape(#[trigger] raw_tokens(s)[k]),
{
    lemma_scan_from_shapes(s, 0, scan_init(), Seq::empty());
}

/// Every candidate a scan yields, under either separator policy, is a
/// strict numeric literal — except those whose raw form is a
/// mixed-separator candidate (such as one holding a dot after its last
/// comma), which the disambiguation rule deliberately leaves with more
/// than one dot.
pub proof fn lemma_scan_tokens_strict(s: Seq<char>, force_comma: bool, k: int)
    requires
        0 <= k < raw_tokens(s).len(),
        !mixed_separator_token(raw_tokens(s)[k], force_comma),
    ensures
        scan_tokens_spec(s, force_comma).len() == raw_tokens(s).len(),
        strict_numeric(scan_tokens_spec(s, force_comma)[k]),
{
    lemma_raw_tokens_shape(s);
    lemma_normalised_token_strict(raw_tokens(s)[k], force_comma);
    assert(scan_tokens_spec(s, force_comma)[k] == sanitize_spec(
        correct_spec(raw_tokens(s)[k], force_comma),
    ));
}

/// Re-normalising an already-normalised numeric string (no `,`, at most one
/// `.`) under the auto-detect policy returns it unchanged.
pub proof fn lemma_correct_normalized_unchanged(s: Seq<char>)
    requires
        count_char(s, ',') == 0,
        count_char(s, '.') <= 1,
    ensures
        correct_spec(s, false) == s,
{
    lemma_count_and_last_pos(s, ',');
    lemma_count_and_last_pos(s, '.');
    lemma_remove_absent(s, ',');
}

} // verus!
