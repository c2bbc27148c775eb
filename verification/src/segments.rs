//! Splitting strings on separators: whole-string splits into parts or
//! non-empty segments, head/tail and start/end pairs around the first or
//! last occurrence of a separator, indexed segment extraction, and splits on
//! sets of separator characters.

use vstd::prelude::*;
use crate::chars::{chars_vec, string_of};
use crate::enums::{contains_seq_at};
use crate::simple_match::{matches_at, starts_with_chars, ends_with_chars};
use crate::alphanumeric::subvec;

verus! {

/// The first position at or after `i` where `sep` occurs in `s`, or -1.
pub open spec fn first_sep_from(s: Seq<char>, sep: Seq<char>, i: int) -> int
    decreases s.len() - i + 1,
    when 0 <= i
{
    if i + sep.len() > s.len() {
        -1
    } else if contains_seq_at(s, sep, i) {
        i
    } else {
        first_sep_from(s, sep, i + 1)
    }
}

/// The last position at or before `i` where `sep` occurs in `s`, or -1.
pub open spec fn last_sep_before(s: Seq<char>, sep: Seq<char>, i: int) -> int
    decreases i + 1,
    when i <= s.len()
{
    if i < 0 {
        -1
    } else if contains_seq_at(s, sep, i) {
        i
    } else {
        last_sep_before(s, sep, i - 1)
    }
}

/// The parts of `s` split at every occurrence of a non-empty separator,
/// leftmost first; a string without the separator is one part.
pub open spec fn split_parts(s: Seq<char>, sep: Seq<char>) -> Seq<Seq<char>>
    decreases s.len(),
    when sep.len() >= 1
{
    let p = first_sep_from(s, sep, 0);
    if p < 0 {
        seq![s]
    } else {
        proof {
            lemma_first_sep_from_bounds(s, sep, 0);
        }
        seq![s.take(p)] + split_parts(s.skip(p + sep.len()), sep)
    }
}

/// A found first position lies at or after the start of the search and
/// leaves room for the separator.
pub proof fn lemma_first_sep_from_bounds(s: Seq<char>, sep: Seq<char>, i: int)
    requires
        0 <= i,
    ensures
        first_sep_from(s, sep, i) >= 0 ==> {
            let p = first_sep_from(s, sep, i);
            &&& i <= p
            &&& p + sep.len() <= s.len()
            &&& contains_seq_at(s, sep, p)
        },
    decreases s.len() - i + 1,
{
    if i + sep.len() <= s.len() && !contains_seq_at(s, sep, i) {
        lemma_first_sep_from_bounds(s, sep, i + 1);
    }
}

/// The non-empty parts among `ps`, in order.
pub open spec fn nonempty_parts(ps: Seq<Seq<char>>) -> Seq<Seq<char>>
    decreases ps.len(),
{
    if ps.len() == 0 {
        Seq::empty()
    } else {
        nonempty_parts(ps.drop_last()) + if ps.last().len() > 0 {
            seq![ps.last()]
        } else {
            Seq::<Seq<char>>::empty()
        }
    }
}

/// The parts of `s` split on `sep`, for any separator: an empty separator
/// splits between every character, with empty parts at both ends.
pub open spec fn parts_of(s: Seq<char>, sep: Seq<char>) -> Seq<Seq<char>> {
    if sep.len() == 0 {
        seq![Seq::<char>::empty()] + s.map_values(|c: char| seq![c]) + seq![Seq::<char>::empty()]
    } else {
        split_parts(s, sep)
    }
}

/// The non-empty segment of `s` split on `sep` selected by `index`.
pub open spec fn segment_element(s: Seq<char>, sep: Seq<char>, index: int) -> Option<Seq<char>> {
    element_at(nonempty_parts(parts_of(s, sep)), index)
}

/// The part before the first separator, or the whole string without one.
pub open spec fn split_head(s: Seq<char>, sep: Seq<char>) -> Seq<char> {
    let p = first_sep_from(s, sep, 0);
    if p < 0 {
        s
    } else {
        s.take(p)
    }
}

/// Everything after the first separator, or nothing without one.
pub open spec fn split_tail(s: Seq<char>, sep: Seq<char>) -> Seq<char> {
    let p = first_sep_from(s, sep, 0);
    if p < 0 {
        Seq::empty()
    } else {
        s.skip(p + sep.len())
    }
}

/// The part before the last separator, or the whole string without one.
pub open spec fn split_start(s: Seq<char>, sep: Seq<char>) -> Seq<char> {
    let p = last_sep_before(s, sep, s.len() - sep.len());
    if p < 0 {
        s
    } else {
        s.take(p)
    }
}

/// Everything after the last separator, or nothing without one.
pub open spec fn split_end(s: Seq<char>, sep: Seq<char>) -> Seq<char> {
    let p = last_sep_before(s, sep, s.len() - sep.len());
    if p < 0 {
        Seq::empty()
    } else {
        s.skip(p + sep.len())
    }
}

/// The first position at or after `i` of the separator in `hay`, if any.
fn find_first_in(hay: &Vec<char>, sep: &Vec<char>) -> (r: Option<usize>)
    ensures
        match r {
            Some(p) => p as int == first_sep_from(hay@, sep@, 0) && p + sep@.len() <= hay@.len(),
            None => first_sep_from(hay@, sep@, 0) == -1,
        },
{
    let n = hay.len();
    if sep.len() > n {
        return None;
    }
    if sep.len() == 0 {
        proof {
            assert(hay@.subrange(0, 0) =~= sep@);
            assert(contains_seq_at(hay@, sep@, 0));
        }
        return Some(0);
    }
    let top = n - sep.len();
    let mut i: usize = 0;
    while i <= top
        invariant
            n == hay@.len(),
            1 <= sep@.len() <= n,
            top == n - sep@.len(),
            i <= top + 1,
            first_sep_from(hay@, sep@, 0) == first_sep_from(hay@, sep@, i as int),
        decreases top - i + 1,
    {
        if matches_at(hay, sep, i) {
            return Some(i);
        }
        i = i + 1;
    }
    None
}

/// The last position of the separator in `hay`, if any.
fn find_last_in(hay: &Vec<char>, sep: &Vec<char>) -> (r: Option<usize>)
    ensures
        ({
            let top = hay@.len() - sep@.len();
            match r {
                Some(p) => p as int == last_sep_before(hay@, sep@, top) && p + sep@.len()
                    <= hay@.len(),
                None => last_sep_before(hay@, sep@, top) == -1,
            }
        }),
{
    let n = hay.len();
    if sep.len() > n {
        return None;
    }
    if sep.len() == 0 {
        proof {
            assert(hay@.subrange(n as int, n as int) =~= sep@);
            assert(contains_seq_at(hay@, sep@, n as int));
        }
        return Some(n);
    }
    let top = n - sep.len();
    let mut i: usize = top + 1;
    while i > 0
        invariant
            n == hay@.len(),
            sep@.len() <= n,
            i <= top + 1,
            top == n - sep@.len(),
            last_sep_before(hay@, sep@, top as int) == last_sep_before(hay@, sep@, i - 1),
        decreases i,
    {
        if matches_at(hay, sep, i - 1) {
            return Some(i - 1);
        }
        i = i - 1;
    }
    None
}

/// Split on the exact separator, whether leading, trailing or repeated; may
/// yield empty parts.  An empty separator splits between every character.
pub fn to_parts(s: &str, separator: &str) -> (r: Vec<String>)
    ensures
        r@.map_values(|t: String| t@) == parts_of(s@, separator@),
{
    let sepv = chars_vec(separator);
    let mut out: Vec<String> = Vec::new();
    if sepv.len() == 0 {
        let v = chars_vec(s);
        out.push(String::new());
        let mut i: usize = 0;
        while i < v.len()
            invariant
                v@ == s@,
                i <= v@.len(),
                out@.len() == i + 1,
                out@[0]@ == Seq::<char>::empty(),
                forall|k: int| 1 <= k <= i ==> (#[trigger] out@[k])@ == seq![s@[k - 1]],
            decreases v@.len() - i,
        {
            let mut one = String::new();
            crate::chars::push_char(&mut one, v[i]);
            proof {
                assert(one@ =~= seq![s@[i as int]]);
            }
            out.push(one);
            i = i + 1;
        }
        out.push(String::new());
        proof {
            let expected = seq![Seq::<char>::empty()] + s@.map_values(|c: char| seq![c]) + seq![
                Seq::<char>::empty(),
            ];
            assert forall|k: int| 0 <= k < out@.len() implies (#[trigger] out@[k])@ == expected[k]
                by {}
            assert(out@.map_values(|t: String| t@) =~= expected);
        }
        return out;
    }
    let mut current = chars_vec(s);
    loop
        invariant
            sepv@ == separator@,
            sepv@.len() >= 1,
            split_parts(s@, separator@) == out@.map_values(|t: String| t@) + split_parts(
                current@,
                separator@,
            ),
        decreases current@.len() + 1,
    {
        let ghost out_pre = out@;
        match find_first_in(&current, &sepv) {
            Some(p) => {
                let cn = current.len();
                let head = subvec(&current, 0, p);
                out.push(string_of(&head));
                let rest = subvec(&current, p + sepv.len(), cn);
                proof {
                    assert(split_parts(current@, separator@) == seq![current@.take(p as int)]
                        + split_parts(current@.skip(p + separator@.len()), separator@));
                    assert(out@.map_values(|t: String| t@) =~= out_pre.map_values(
                        |t: String| t@,
                    ).push(current@.take(p as int)));
                    assert(rest@ == current@.skip(p + separator@.len()));
                    assert(out_pre.map_values(|t: String| t@) + split_parts(current@, separator@)
                        =~= out@.map_values(|t: String| t@) + split_parts(rest@, separator@));
                }
                current = rest;
            },
            None => {
                out.push(string_of(&current));
                proof {
                    assert(split_parts(current@, separator@) == seq![current@]);
                    assert(out_pre.map_values(|t: String| t@) + split_parts(current@, separator@)
                        =~= out@.map_values(|t: String| t@));
                }
                return out;
            },
        }
    }
    out
}

/// Split on a separator, keeping only the non-empty segments (leading,
/// trailing and repeated separators yield none).
pub fn to_segments(s: &str, separator: &str) -> (r: Vec<String>)
    ensures
        r@.map_values(|t: String| t@) == nonempty_parts(parts_of(s@, separator@)),
{
    let parts = to_parts(s, separator);
    let ghost all = parts@.map_values(|t: String| t@);
    let mut out: Vec<String> = Vec::new();
    let mut i: usize = 0;
    while i < parts.len()
        invariant
            all == parts@.map_values(|t: String| t@),
            i <= parts@.len(),
            out@.map_values(|t: String| t@) == nonempty_parts(all.take(i as int)),
        decreases parts@.len() - i,
    {
        proof {
            assert(all.take(i + 1).drop_last() =~= all.take(i as int));
            assert(all.take(i + 1).last() == parts@[i as int]@);
        }
        if parts[i].as_str().unicode_len() > 0 {
            out.push(parts[i].clone());
        }
        i = i + 1;
        assert(out@.map_values(|t: String| t@) =~= nonempty_parts(all.take(i as int)));
    }
    proof {
        assert(all.take(all.len() as int) =~= all);
    }
    out
}

/// The head before the first occurrence of the separator, or the whole
/// string when the separator is absent.
pub fn to_head(s: &str, separator: &str) -> (r: String)
    ensures
        r@ == split_head(s@, separator@),
{
    let v = chars_vec(s);
    let sepv = chars_vec(separator);
    match find_first_in(&v, &sepv) {
        Some(p) => {
            let head = subvec(&v, 0, p);
            string_of(&head)
        },
        None => string_of(&v),
    }
}

/// The remainder after the first occurrence of the separator, or the empty
/// string when the separator is absent.
pub fn to_tail(s: &str, separator: &str) -> (r: String)
    ensures
        r@ == split_tail(s@, separator@),
{
    let v = chars_vec(s);
    let sepv = chars_vec(separator);
    let n = v.len();
    match find_first_in(&v, &sepv) {
        Some(p) => {
            let tail = subvec(&v, p + sepv.len(), n);
            string_of(&tail)
        },
        None => String::new(),
    }
}

/// The head and tail around the first occurrence of the separator.  When
/// the separator is absent the head is empty and the tail is the whole
/// string.
pub fn to_head_tail(s: &str, separator: &str) -> (r: (String, String))
    ensures
        first_sep_from(s@, separator@, 0) >= 0 ==> r.0@ == split_head(s@, separator@) && r.1@
            == split_tail(s@, separator@),
        first_sep_from(s@, separator@, 0) < 0 ==> r.0@ == Seq::<char>::empty() && r.1@ == s@,
{
    let v = chars_vec(s);
    let sepv = chars_vec(separator);
    let n = v.len();
    match find_first_in(&v, &sepv) {
        Some(p) => {
            let head = subvec(&v, 0, p);
            let tail = subvec(&v, p + sepv.len(), n);
            (string_of(&head), string_of(&tail))
        },
        None => (String::new(), string_of(&v)),
    }
}

/// The start and end around the last occurrence of the separator.  When the
/// separator is absent the start is the whole string and the end is empty.
pub fn to_start_end(s: &str, separator: &str) -> (r: (String, String))
    ensures
        last_sep_before(s@, separator@, s@.len() - separator@.len()) >= 0 ==> r.0@ == split_start(
            s@,
            separator@,
        ) && r.1@ == split_end(s@, separator@),
        last_sep_before(s@, separator@, s@.len() - separator@.len()) < 0 ==> r.0@ == s@ && r.1@
            == Seq::<char>::empty(),
{
    let v = chars_vec(s);
    let sepv = chars_vec(separator);
    let n = v.len();
    match find_last_in(&v, &sepv) {
        Some(p) => {
            let start = subvec(&v, 0, p);
            let end = subvec(&v, p + sepv.len(), n);
            (string_of(&start), string_of(&end))
        },
        None => (string_of(&v), String::new()),
    }
}

/// The start before the last occurrence of the separator, or the whole
/// string when the separator is absent.
pub fn to_start(s: &str, separator: &str) -> (r: String)
    ensures
        last_sep_before(s@, separator@, s@.len() - separator@.len()) >= 0 ==> r@ == split_start(
            s@,
            separator@,
        ),
        last_sep_before(s@, separator@, s@.len() - separator@.len()) < 0 ==> r@ == s@,
{
    let pair = to_start_end(s, separator);
    pair.0
}

/// The last segment after the last occurrence of the separator, whether
/// empty or not.
pub fn to_end(s: &str, separator: &str) -> (r: String)
    ensures
        last_sep_before(s@, separator@, s@.len() - separator@.len()) >= 0 ==> r@ == split_end(
            s@,
            separator@,
        ),
        last_sep_before(s@, separator@, s@.len() - separator@.len()) < 0 ==> r@ == Seq::<
            char,
        >::empty(),
{
    let pair = to_start_end(s, separator);
    pair.1
}

/// The first segment: the head, ignoring one leading separator.
pub fn to_first(s: &str, separator: &str) -> (r: String)
    ensures
        separator@.is_prefix_of(s@) && s@.len() > separator@.len() ==> r@ == split_head(
            s@.skip(separator@.len() as int),
            separator@,
        ),
        !(separator@.is_prefix_of(s@) && s@.len() > separator@.len()) ==> r@ == split_head(
            s@,
            separator@,
        ),
{
    let v = chars_vec(s);
    let sepv = chars_vec(separator);
    if starts_with_chars(&v, &sepv) && v.len() > sepv.len() {
        let rest = subvec(&v, sepv.len(), v.len());
        let trimmed = string_of(&rest);
        to_head(trimmed.as_str(), separator)
    } else {
        to_head(s, separator)
    }
}

/// The remainder after the first non-initial separator: the tail, ignoring
/// one leading separator.
pub fn to_remainder_end(s: &str, separator: &str) -> (r: String)
    ensures
        separator@.is_prefix_of(s@) && s@.len() > separator@.len() ==> r@ == split_tail(
            s@.skip(separator@.len() as int),
            separator@,
        ),
        !(separator@.is_prefix_of(s@) && s@.len() > separator@.len()) ==> r@ == split_tail(
            s@,
            separator@,
        ),
{
    let v = chars_vec(s);
    let sepv = chars_vec(separator);
    if starts_with_chars(&v, &sepv) && v.len() > sepv.len() {
        let rest = subvec(&v, sepv.len(), v.len());
        let trimmed = string_of(&rest);
        to_tail(trimmed.as_str(), separator)
    } else {
        to_tail(s, separator)
    }
}

/// The last segment: the end, ignoring one trailing separator.
pub fn to_last(s: &str, separator: &str) -> (r: String)
    ensures
        ({
            let trimmed = s@.take(s@.len() - separator@.len());
            let use_trimmed = separator@.is_suffix_of(s@) && s@.len() > separator@.len();
            let base = if use_trimmed {
                trimmed
            } else {
                s@
            };
            let p = last_sep_before(base, separator@, base.len() - separator@.len());
            r@ == if p >= 0 {
                base.skip(p + separator@.len())
            } else {
                Seq::<char>::empty()
            }
        }),
{
    let v = chars_vec(s);
    let sepv = chars_vec(separator);
    if ends_with_chars(&v, &sepv) && v.len() > sepv.len() {
        let rest = subvec(&v, 0, v.len() - sepv.len());
        let trimmed = string_of(&rest);
        to_end(trimmed.as_str(), separator)
    } else {
        to_end(s, separator)
    }
}

/// The beginning before the last segment, ignoring one trailing separator.
pub fn to_remainder_start(s: &str, separator: &str) -> (r: String)
    ensures
        ({
            let trimmed = s@.take(s@.len() - separator@.len());
            let use_trimmed = separator@.is_suffix_of(s@) && s@.len() > separator@.len();
            let base = if use_trimmed {
                trimmed
            } else {
                s@
            };
            let p = last_sep_before(base, separator@, base.len() - separator@.len());
            r@ == if p >= 0 {
                base.take(p)
            } else {
                base
            }
        }),
{
    let v = chars_vec(s);
    let sepv = chars_vec(separator);
    if ends_with_chars(&v, &sepv) && v.len() > sepv.len() {
        let rest = subvec(&v, 0, v.len() - sepv.len());
        let trimmed = string_of(&rest);
        to_start(trimmed.as_str(), separator)
    } else {
        to_start(s, separator)
    }
}

/// The element of `parts` selected by `index`; a negative index counts from
/// the end, and an out-of-range index selects nothing.
pub open spec fn element_at(parts: Seq<Seq<char>>, index: int) -> Option<Seq<char>> {
    if 0 <= index < parts.len() {
        Some(parts[index])
    } else if index < 0 && parts.len() + index >= 0 {
        Some(parts[parts.len() + index])
    } else {
        None
    }
}

/// Select an element of a string list by index, counting from the end for a
/// negative index.
pub fn extract_string_element_by_index(parts: &Vec<String>, index: i32) -> (r: Option<String>)
    ensures
        match r {
            Some(t) => element_at(parts@.map_values(|p: String| p@), index as int) == Some(t@),
            None => element_at(parts@.map_values(|p: String| p@), index as int) is None,
        },
{
    let n = parts.len();
    if index >= 0 {
        let t = index as usize;
        if t < n {
            proof {
                assert(parts@.map_values(|p: String| p@)[t as int] == parts@[t as int]@);
            }
            Some(parts[t].clone())
        } else {
            None
        }
    } else {
        let back = (-(index as i64)) as usize;
        if back <= n {
            let t = n - back;
            proof {
                assert(t as int == parts@.len() + index);
                assert(parts@.map_values(|p: String| p@)[t as int] == parts@[t as int]@);
            }
            Some(parts[t].clone())
        } else {
            None
        }
    }
}

/// The non-empty segment selected by `index`, counting from the end for a
/// negative index.
pub fn to_segment(s: &str, separator: &str, index: i32) -> (r: Option<String>)
    ensures
        match r {
            Some(t) => segment_element(s@, separator@, index as int) == Some(t@),
            None => segment_element(s@, separator@, index as int) is None,
        },
{
    let parts = to_segments(s, separator);
    extract_string_element_by_index(&parts, index)
}

/// The part selected by `index`, counting from the end for a negative
/// index; empty parts count.
pub fn to_part(s: &str, separator: &str, index: i32) -> (r: Option<String>)
    ensures
        match r {
            Some(t) => element_at(parts_of(s@, separator@), index as int) == Some(t@),
            None => element_at(parts_of(s@, separator@), index as int) is None,
        },
{
    let parts = to_parts(s, separator);
    extract_string_element_by_index(&parts, index)
}

// ---------------------------------------------------------------------------
// Nested segment extraction.
// ---------------------------------------------------------------------------

/// Applying the separator/index pairs of `groups` from position `i` on:
/// each pair selects a segment of the current string, which becomes the
/// current string for the next pair (or empty when nothing was selected);
/// an exhausted list yields the last selection.
pub open spec fn inner_segment_from(
    groups: Seq<(Seq<char>, int)>,
    i: int,
    matched: Option<Seq<char>>,
    current: Seq<char>,
) -> Option<Seq<char>>
    decreases groups.len() - i,
    when 0 <= i <= groups.len()
{
    if i >= groups.len() {
        matched
    } else if current.len() > 0 {
        let m = segment_element(current, groups[i].0, groups[i].1);
        let next = match m {
            Some(t) => t,
            None => Seq::empty(),
        };
        inner_segment_from(groups, i + 1, m, next)
    } else {
        inner_segment_from(groups, i + 1, matched, current)
    }
}

/// The segment reached by applying every separator/index pair in turn; an
/// empty pair list selects nothing.
pub open spec fn inner_segment(s: Seq<char>, groups: Seq<(Seq<char>, int)>) -> Option<Seq<char>> {
    if groups.len() == 0 {
        None
    } else {
        inner_segment_from(groups, 0, None, s)
    }
}

/// Extract an inner segment via a list of separator and index pairs, each
/// applied to the segment the previous pair selected.
pub fn to_inner_segment(s: &str, groups: &Vec<(String, i32)>) -> (r: Option<String>)
    ensures
        ({
            let gs = groups@.map_values(|g: (String, i32)| (g.0@, g.1 as int));
            match r {
                Some(t) => inner_segment(s@, gs) == Some(t@),
                None => inner_segment(s@, gs) is None,
            }
        }),
{
    let ghost gs = groups@.map_values(|g: (String, i32)| (g.0@, g.1 as int));
    if groups.len() == 0 {
        return None;
    }
    let mut matched: Option<String> = None;
    let mut current: String = String::from_str(s);
    let mut i: usize = 0;
    while i < groups.len()
        invariant
            gs == groups@.map_values(|g: (String, i32)| (g.0@, g.1 as int)),
            i <= groups@.len(),
            inner_segment_from(gs, 0, None, s@) == inner_segment_from(
                gs,
                i as int,
                match matched {
                    Some(t) => Some(t@),
                    None => None,
                },
                current@,
            ),
        decreases groups@.len() - i,
    {
        proof {
            assert(gs[i as int] == (groups@[i as int].0@, groups@[i as int].1 as int));
        }
        if current.as_str().unicode_len() > 0 {
            let sep = &groups[i].0;
            let idx = groups[i].1;
            matched = to_segment(current.as_str(), sep.as_str(), idx);
            current = match &matched {
                Some(t) => t.clone(),
                None => String::new(),
            };
        }
        i = i + 1;
    }
    matched
}

// ---------------------------------------------------------------------------
// Splitting on sets of characters.
// ---------------------------------------------------------------------------

/// The first position at or after `i` whose character belongs to `seps`, or
/// -1.
pub open spec fn first_any_from(s: Seq<char>, seps: Seq<char>, i: int) -> int
    decreases s.len() - i,
    when 0 <= i
{
    if i >= s.len() {
        -1
    } else if seps.contains(s[i]) {
        i
    } else {
        first_any_from(s, seps, i + 1)
    }
}

/// A found position is in range and holds a separator character.
pub proof fn lemma_first_any_from_bounds(s: Seq<char>, seps: Seq<char>, i: int)
    requires
        0 <= i,
    ensures
        first_any_from(s, seps, i) >= 0 ==> {
            let p = first_any_from(s, seps, i);
            &&& i <= p < s.len()
            &&& seps.contains(s[p])
        },
    decreases s.len() - i,
{
    if i < s.len() && !seps.contains(s[i]) {
        lemma_first_any_from_bounds(s, seps, i + 1);
    }
}

/// The parts of `s` split at every position whose character belongs to
/// `seps`; a string without such a character is one part.
pub open spec fn split_on_chars(s: Seq<char>, seps: Seq<char>) -> Seq<Seq<char>>
    decreases s.len(),
{
    let p = first_any_from(s, seps, 0);
    if p < 0 {
        seq![s]
    } else {
        proof {
            lemma_first_any_from_bounds(s, seps, 0);
        }
        seq![s.take(p)] + split_on_chars(s.skip(p + 1), seps)
    }
}

/// Does the character belong to the separator set?
fn char_in(seps: &Vec<char>, c: char) -> (r: bool)
    ensures
        r == seps@.contains(c),
{
    let mut i: usize = 0;
    while i < seps.len()
        invariant
            i <= seps@.len(),
            forall|j: int| 0 <= j < i ==> seps@[j] != c,
        decreases seps@.len() - i,
    {
        if seps[i] == c {
            return true;
        }
        i = i + 1;
    }
    false
}

/// The first position at or after `from` holding a character of `seps`.
fn find_any_in(hay: &Vec<char>, seps: &Vec<char>) -> (r: Option<usize>)
    ensures
        match r {
            Some(p) => p as int == first_any_from(hay@, seps@, 0) && p < hay@.len(),
            None => first_any_from(hay@, seps@, 0) == -1,
        },
{
    let mut i: usize = 0;
    while i < hay.len()
        invariant
            i <= hay@.len(),
            first_any_from(hay@, seps@, 0) == first_any_from(hay@, seps@, i as int),
        decreases hay@.len() - i,
    {
        if char_in(seps, hay[i]) {
            return Some(i);
        }
        i = i + 1;
    }
    None
}

/// Split a string at every occurrence of any of the separator characters.
pub fn split_on_any_char(s: &str, separators: &Vec<char>) -> (r: Vec<String>)
    ensures
        r@.map_values(|t: String| t@) == split_on_chars(s@, separators@),
{
    let mut out: Vec<String> = Vec::new();
    let mut current = chars_vec(s);
    loop
        invariant
            split_on_chars(s@, separators@) == out@.map_values(|t: String| t@) + split_on_chars(
                current@,
                separators@,
            ),
        decreases current@.len() + 1,
    {
        let ghost out_pre = out@;
        match find_any_in(&current, separators) {
            Some(p) => {
                let cn = current.len();
                let head = subvec(&current, 0, p);
                out.push(string_of(&head));
                let rest = subvec(&current, p + 1, cn);
                proof {
                    assert(split_on_chars(current@, separators@) == seq![current@.take(p as int)]
                        + split_on_chars(current@.skip(p + 1), separators@));
                    assert(out@.map_values(|t: String| t@) =~= out_pre.map_values(
                        |t: String| t@,
                    ).push(current@.take(p as int)));
                    assert(out_pre.map_values(|t: String| t@) + split_on_chars(
                        current@,
                        separators@,
                    ) =~= out@.map_values(|t: String| t@) + split_on_chars(rest@, separators@));
                }
                current = rest;
            },
            None => {
                out.push(string_of(&current));
                proof {
                    assert(split_on_chars(current@, separators@) == seq![current@]);
                    assert(out_pre.map_values(|t: String| t@) + split_on_chars(
                        current@,
                        separators@,
                    ) =~= out@.map_values(|t: String| t@));
                }
                return out;
            },
        }
    }
    out
}

/// The first position of the character `c` in `s` at or after `i`, or -1.
pub open spec fn first_char_pos(s: Seq<char>, c: char, i: int) -> int
    decreases s.len() - i,
    when 0 <= i
{
    if i >= s.len() {
        -1
    } else if s[i] == c {
        i
    } else {
        first_char_pos(s, c, i + 1)
    }
}

/// The last position of the character `c` in `s` at or before `i`, or -1.
pub open spec fn last_char_pos(s: Seq<char>, c: char, i: int) -> int
    decreases i + 1,
    when i < s.len()
{
    if i < 0 {
        -1
    } else if s[i] == c {
        i
    } else {
        last_char_pos(s, c, i - 1)
    }
}

/// The head and tail around the first occurrence of the first separator
/// character present in `s`; when none occurs, an empty head and the whole
/// string.
pub open spec fn head_tail_any(s: Seq<char>, seps: Seq<char>) -> (Seq<char>, Seq<char>)
    decreases seps.len(),
{
    if seps.len() == 0 {
        (Seq::empty(), s)
    } else {
        let p = first_char_pos(s, seps[0], 0);
        if p >= 0 {
            proof {
                lemma_first_char_pos_bounds(s, seps[0], 0);
            }
            (s.take(p), s.skip(p + 1))
        } else {
            head_tail_any(s, seps.drop_first())
        }
    }
}

/// The start and end around the last occurrence of the first separator
/// character present in `s`; when none occurs, the whole string and an
/// empty end.
pub open spec fn start_end_any(s: Seq<char>, seps: Seq<char>) -> (Seq<char>, Seq<char>)
    decreases seps.len(),
{
    if seps.len() == 0 {
        (s, Seq::empty())
    } else {
        let p = last_char_pos(s, seps[0], s.len() - 1);
        if p >= 0 {
            proof {
                lemma_last_char_pos_bounds(s, seps[0], s.len() - 1);
            }
            (s.take(p), s.skip(p + 1))
        } else {
            start_end_any(s, seps.drop_first())
        }
    }
}

/// A found first position is in range and holds `c`.
pub proof fn lemma_first_char_pos_bounds(s: Seq<char>, c: char, i: int)
    requires
        0 <= i,
    ensures
        first_char_pos(s, c, i) >= 0 ==> {
            let p = first_char_pos(s, c, i);
            &&& i <= p < s.len()
            &&& s[p] == c
        },
    decreases s.len() - i,
{
    if i < s.len() && s[i] != c {
        lemma_first_char_pos_bounds(s, c, i + 1);
    }
}

/// A found last position is in range and holds `c`.
pub proof fn lemma_last_char_pos_bounds(s: Seq<char>, c: char, i: int)
    requires
        i < s.len(),
    ensures
        last_char_pos(s, c, i) >= 0 ==> {
            let p = last_char_pos(s, c, i);
            &&& 0 <= p <= i
            &&& s[p] == c
        },
    decreases i + 1,
{
    if i >= 0 && s[i] != c {
        lemma_last_char_pos_bounds(s, c, i - 1);
    }
}

/// The first position of `c` in `hay`, if any.
fn find_char_in(hay: &Vec<char>, c: char) -> (r: Option<usize>)
    ensures
        match r {
            Some(p) => p as int == first_char_pos(hay@, c, 0) && p < hay@.len(),
            None => first_char_pos(hay@, c, 0) == -1,
        },
{
    let mut i: usize = 0;
    while i < hay.len()
        invariant
            i <= hay@.len(),
            first_char_pos(hay@, c, 0) == first_char_pos(hay@, c, i as int),
        decreases hay@.len() - i,
    {
        if hay[i] == c {
            return Some(i);
        }
        i = i + 1;
    }
    None
}

/// The last position of `c` in `hay`, if any.
fn find_char_last_in(hay: &Vec<char>, c: char) -> (r: Option<usize>)
    ensures
        match r {
            Some(p) => p as int == last_char_pos(hay@, c, hay@.len() - 1) && p < hay@.len(),
            None => last_char_pos(hay@, c, hay@.len() - 1) == -1,
        },
{
    let mut i: usize = hay.len();
    while i > 0
        invariant
            i <= hay@.len(),
            last_char_pos(hay@, c, hay@.len() - 1) == last_char_pos(hay@, c, i - 1),
        decreases i,
    {
        if hay[i - 1] == c {
            return Some(i - 1);
        }
        i = i - 1;
    }
    None
}

/// Split into head and tail on the first occurrence of the first separator
/// character that occurs at all; when none occurs, the head is empty and
/// the tail is the whole string.
pub fn to_head_tail_on_any_char(s: &str, separators: &Vec<char>) -> (r: (String, String))
    ensures
        (r.0@, r.1@) == head_tail_any(s@, separators@),
{
    let v = chars_vec(s);
    let n = v.len();
    proof {
        assert(separators@.skip(0) =~= separators@);
    }
    let mut j: usize = 0;
    while j < separators.len()
        invariant
            v@ == s@,
            n == v@.len(),
            j <= separators@.len(),
            head_tail_any(s@, separators@) == head_tail_any(s@, separators@.skip(j as int)),
        decreases separators@.len() - j,
    {
        proof {
            assert(separators@.skip(j as int)[0] == separators@[j as int]);
            assert(separators@.skip(j as int).drop_first() =~= separators@.skip(j + 1));
        }
        match find_char_in(&v, separators[j]) {
            Some(p) => {
                let head = subvec(&v, 0, p);
                let tail = subvec(&v, p + 1, n);
                return (string_of(&head), string_of(&tail));
            },
            None => {},
        }
        j = j + 1;
    }
    proof {
        assert(separators@.skip(separators@.len() as int) =~= Seq::<char>::empty());
    }
    (String::new(), string_of(&v))
}

/// Split into start and end on the last occurrence of the first separator
/// character that occurs at all; when none occurs, the start is the whole
/// string and the end is empty.
pub fn to_start_end_on_any_char(s: &str, separators: &Vec<char>) -> (r: (String, String))
    ensures
        (r.0@, r.1@) == start_end_any(s@, separators@),
{
    let v = chars_vec(s);
    let n = v.len();
    proof {
        assert(separators@.skip(0) =~= separators@);
    }
    let mut j: usize = 0;
    while j < separators.len()
        invariant
            v@ == s@,
            n == v@.len(),
            j <= separators@.len(),
            start_end_any(s@, separators@) == start_end_any(s@, separators@.skip(j as int)),
        decreases separators@.len() - j,
    {
        proof {
            assert(separators@.skip(j as int)[0] == separators@[j as int]);
            assert(separators@.skip(j as int).drop_first() =~= separators@.skip(j + 1));
        }
        match find_char_last_in(&v, separators[j]) {
            Some(p) => {
                let start = subvec(&v, 0, p);
                let end = subvec(&v, p + 1, n);
                return (string_of(&start), string_of(&end));
            },
            None => {},
        }
        j = j + 1;
    }
    proof {
        assert(separators@.skip(separators@.len() as int) =~= Seq::<char>::empty());
    }
    (string_of(&v), String::new())
}

} // verus!
