//! Regex-free matching: case-insensitive boundary tests on single strings,
//! evaluation of `StringBounds` rule trees with short-circuiting, per-rule
//! result vectors, and rule-based filtering of string collections.

use vstd::prelude::*;
use crate::chars::{chars_vec, lower_of, lowercase, kept_alnum};
use crate::enums::{
    BoundsPosition, CaseMatchMode, StringBounds, contains_seq, contains_seq_at, leaf_matches,
    matches_all, matches_any, pattern_for_mode, position_test, rule_matches, sample_for_mode,
};
use crate::alphanumeric::strip_non_alphanum;

verus! {

// ---------------------------------------------------------------------------
// Character-vector comparison primitives.
// ---------------------------------------------------------------------------

/// Do two character vectors hold the same characters?
pub fn eq_chars(a: &Vec<char>, b: &Vec<char>) -> (r: bool)
    ensures
        r == (a@ == b@),
{
    if a.len() != b.len() {
        return false;
    }
    let mut i: usize = 0;
    while i < a.len()
        invariant
            a@.len() == b@.len(),
            i <= a@.len(),
            forall|j: int| 0 <= j < i ==> a@[j] == b@[j],
        decreases a@.len() - i,
    {
        if a[i] != b[i] {
            return false;
        }
        i = i + 1;
    }
    proof {
        assert(a@ =~= b@);
    }
    true
}

/// Does `hay` begin with `pre`?
pub fn starts_with_chars(hay: &Vec<char>, pre: &Vec<char>) -> (r: bool)
    ensures
        r == pre@.is_prefix_of(hay@),
{
    if pre.len() > hay.len() {
        return false;
    }
    let mut i: usize = 0;
    while i < pre.len()
        invariant
            pre@.len() <= hay@.len(),
            i <= pre@.len(),
            forall|j: int| 0 <= j < i ==> pre@[j] == hay@[j],
        decreases pre@.len() - i,
    {
        if pre[i] != hay[i] {
            proof {
                assert(hay@.subrange(0, pre@.len() as int)[i as int] == hay@[i as int]);
            }
            return false;
        }
        i = i + 1;
    }
    proof {
        assert(pre@ =~= hay@.subrange(0, pre@.len() as int));
    }
    true
}

/// Does `hay` end with `suf`?
pub fn ends_with_chars(hay: &Vec<char>, suf: &Vec<char>) -> (r: bool)
    ensures
        r == suf@.is_suffix_of(hay@),
{
    if suf.len() > hay.len() {
        return false;
    }
    let n = hay.len();
    let off = n - suf.len();
    let mut i: usize = 0;
    while i < suf.len()
        invariant
            n == hay@.len(),
            off == hay@.len() - suf@.len(),
            suf@.len() <= hay@.len(),
            i <= suf@.len(),
            forall|j: int| 0 <= j < i ==> suf@[j] == hay@[off + j],
        decreases suf@.len() - i,
    {
        if suf[i] != hay[off + i] {
            proof {
                assert(hay@.subrange(off as int, hay@.len() as int)[i as int] == hay@[off + i]);
            }
            return false;
        }
        i = i + 1;
    }
    proof {
        assert(suf@ =~= hay@.subrange(hay@.len() - suf@.len(), hay@.len() as int));
    }
    true
}

/// Does `needle` occur at position `i` of `hay`?
pub(crate) fn matches_at(hay: &Vec<char>, needle: &Vec<char>, i: usize) -> (r: bool)
    requires
        i + needle@.len() <= hay@.len(),
    ensures
        r == contains_seq_at(hay@, needle@, i as int),
{
    let n = hay.len();
    let mut k: usize = 0;
    while k < needle.len()
        invariant
            n == hay@.len(),
            i + needle@.len() <= hay@.len(),
            k <= needle@.len(),
            forall|j: int| 0 <= j < k ==> needle@[j] == hay@[i + j],
        decreases needle@.len() - k,
    {
        if needle[k] != hay[i + k] {
            proof {
                assert(hay@.subrange(i as int, i + needle@.len())[k as int] == hay@[i + k]);
            }
            return false;
        }
        k = k + 1;
    }
    proof {
        assert(needle@ =~= hay@.subrange(i as int, i + needle@.len()));
    }
    true
}

/// Does `needle` occur anywhere in `hay`?
pub fn contains_chars(hay: &Vec<char>, needle: &Vec<char>) -> (r: bool)
    ensures
        r == contains_seq(hay@, needle@),
{
    if needle.len() > hay.len() {
        proof {
            assert forall|i: int| !contains_seq_at(hay@, needle@, i) by {}
        }
        return false;
    }
    if needle.len() == 0 {
        proof {
            assert(hay@.subrange(0, 0) =~= needle@);
            assert(contains_seq_at(hay@, needle@, 0));
        }
        return true;
    }
    let last_start = hay.len() - needle.len();
    let mut i: usize = 0;
    while i <= last_start
        invariant
            1 <= needle@.len() <= hay@.len(),
            hay@.len() <= usize::MAX,
            last_start == hay@.len() - needle@.len(),
            i <= last_start + 1,
            forall|j: int| 0 <= j < i ==> !contains_seq_at(hay@, needle@, j),
        decreases last_start - i + 1,
    {
        if matches_at(hay, needle, i) {
            return true;
        }
        i = i + 1;
    }
    proof {
        assert forall|j: int| !contains_seq_at(hay@, needle@, j) by {
            if 0 <= j <= last_start {
                assert(!contains_seq_at(hay@, needle@, j));
            }
        }
    }
    false
}

// ---------------------------------------------------------------------------
// Rule evaluation.
// ---------------------------------------------------------------------------

/// The sample transformed for a case mode, as characters.
fn transform_sample(sample: &str, cm: CaseMatchMode) -> (r: Vec<char>)
    ensures
        r@ == sample_for_mode(sample@, cm),
{
    match cm {
        CaseMatchMode::Sensitive => chars_vec(sample),
        CaseMatchMode::Insensitive => {
            let lowered = lowercase(sample);
            chars_vec(lowered.as_str())
        },
        CaseMatchMode::AlphanumInsensitive => {
            let lowered = lowercase(sample);
            let stripped = strip_non_alphanum(lowered.as_str());
            chars_vec(stripped.as_str())
        },
    }
}

/// The pattern transformed for a case mode, as characters.
fn transform_pattern(pattern: &String, cm: CaseMatchMode) -> (r: Vec<char>)
    ensures
        r@ == pattern_for_mode(pattern@, cm),
{
    match cm {
        CaseMatchMode::Sensitive => chars_vec(pattern.as_str()),
        _ => {
            let lowered = lowercase(pattern.as_str());
            chars_vec(lowered.as_str())
        },
    }
}

/// Evaluate one predicate: transform sample and pattern for the case mode,
/// apply the boundary test, and compare with the positivity flag.
fn match_leaf(
    sample: &str,
    position: BoundsPosition,
    pattern: &String,
    positive: bool,
    cm: CaseMatchMode,
) -> (r: bool)
    ensures
        r == leaf_matches(position, pattern@, positive, cm, sample@),
{
    let base = transform_sample(sample, cm);
    let pat = transform_pattern(pattern, cm);
    let raw = match position {
        BoundsPosition::Starts => starts_with_chars(&base, &pat),
        BoundsPosition::Ends => ends_with_chars(&base, &pat),
        BoundsPosition::Whole => eq_chars(&base, &pat),
        BoundsPosition::Contains => contains_chars(&base, &pat),
    };
    raw == positive
}

/// Evaluate a rule tree against a sample, short-circuiting within And and Or
/// lists: an And list stops at its first false child, an Or list at its
/// first true child.
pub fn match_bounds_rule_set(sample: &str, rule: &StringBounds) -> (r: bool)
    ensures
        r == rule_matches(*rule, sample@),
    decreases *rule,
{
    match rule {
        StringBounds::StartsWith(p, positive, cm) => match_leaf(
            sample,
            BoundsPosition::Starts,
            p,
            *positive,
            *cm,
        ),
        StringBounds::EndsWith(p, positive, cm) => match_leaf(
            sample,
            BoundsPosition::Ends,
            p,
            *positive,
            *cm,
        ),
        StringBounds::Contains(p, positive, cm) => match_leaf(
            sample,
            BoundsPosition::Contains,
            p,
            *positive,
            *cm,
        ),
        StringBounds::Whole(p, positive, cm) => match_leaf(
            sample,
            BoundsPosition::Whole,
            p,
            *positive,
            *cm,
        ),
        StringBounds::And(rules) => {
            let mut k: usize = 0;
            while k < rules.len()
                invariant
                    rule is And,
                    rules@ == rule->And_0@,
                    k <= rules@.len(),
                    forall|j: int| 0 <= j < k ==> rule_matches(#[trigger] rules@[j], sample@),
                decreases rules@.len() - k,
            {
                proof {
                    assert(decreases_to!(*rule => rule->And_0));
                    assert(decreases_to!(rule->And_0 => rule->And_0@));
                    assert(decreases_to!(rule->And_0@ => rule->And_0@[k as int]));
                }
                if !match_bounds_rule_set(sample, &rules[k]) {
                    proof {
                        assert(!rule_matches(rules@[k as int], sample@));
                    }
                    return false;
                }
                k = k + 1;
            }
            true
        },
        StringBounds::Or(rules) => {
            let mut k: usize = 0;
            while k < rules.len()
                invariant
                    rule is Or,
                    rules@ == rule->Or_0@,
                    k <= rules@.len(),
                    forall|j: int| 0 <= j < k ==> !rule_matches(#[trigger] rules@[j], sample@),
                decreases rules@.len() - k,
            {
                proof {
                    assert(decreases_to!(*rule => rule->Or_0));
                    assert(decreases_to!(rule->Or_0 => rule->Or_0@));
                    assert(decreases_to!(rule->Or_0@ => rule->Or_0@[k as int]));
                }
                if match_bounds_rule_set(sample, &rules[k]) {
                    proof {
                        assert(rule_matches(rules@[k as int], sample@));
                    }
                    return true;
                }
                k = k + 1;
            }
            false
        },
    }
}

/// Evaluate every rule in the list against the sample and collect the
/// result of each, in order.
pub fn matched_conditional(sample: &str, pattern_sets: &Vec<StringBounds>) -> (r: Vec<bool>)
    ensures
        r@.len() == pattern_sets@.len(),
        forall|i: int|
            0 <= i < pattern_sets@.len() ==> r@[i] == rule_matches(
                #[trigger] pattern_sets@[i],
                sample@,
            ),
{
    let mut out: Vec<bool> = Vec::new();
    let mut i: usize = 0;
    while i < pattern_sets.len()
        invariant
            i <= pattern_sets@.len(),
            out@.len() == i,
            forall|j: int|
                0 <= j < i ==> out@[j] == rule_matches(#[trigger] pattern_sets@[j], sample@),
        decreases pattern_sets@.len() - i,
    {
        let matched = match_bounds_rule_set(sample, &pattern_sets[i]);
        out.push(matched);
        i = i + 1;
    }
    out
}

/// Does the sample satisfy every rule in the list?  An empty list is
/// vacuously satisfied.  Evaluation stops at the first failing rule.
pub fn match_all_conditional(sample: &str, pattern_sets: &Vec<StringBounds>) -> (r: bool)
    ensures
        r == matches_all(pattern_sets@, sample@),
{
    let mut i: usize = 0;
    while i < pattern_sets.len()
        invariant
            i <= pattern_sets@.len(),
            forall|j: int| 0 <= j < i ==> rule_matches(#[trigger] pattern_sets@[j], sample@),
        decreases pattern_sets@.len() - i,
    {
        if !match_bounds_rule_set(sample, &pattern_sets[i]) {
            return false;
        }
        i = i + 1;
    }
    true
}

/// Does the sample satisfy at least one rule in the list?  An empty list is
/// vacuously unsatisfied.  Evaluation stops at the first matching rule.
pub fn match_any_conditional(sample: &str, pattern_sets: &Vec<StringBounds>) -> (r: bool)
    ensures
        r == matches_any(pattern_sets@, sample@),
{
    let mut i: usize = 0;
    while i < pattern_sets.len()
        invariant
            i <= pattern_sets@.len(),
            forall|j: int| 0 <= j < i ==> !rule_matches(#[trigger] pattern_sets@[j], sample@),
        decreases pattern_sets@.len() - i,
    {
        if match_bounds_rule_set(sample, &pattern_sets[i]) {
            return true;
        }
        i = i + 1;
    }
    false
}

/// Evaluate one "contains" predicate per pattern/case-insensitivity pair
/// and collect the result of each.
pub fn contains_conditional(sample: &str, pattern_sets: &Vec<(String, bool)>) -> (r: Vec<bool>)
    ensures
        r@.len() == pattern_sets@.len(),
        forall|i: int|
            0 <= i < pattern_sets@.len() ==> r@[i] == leaf_matches(
                BoundsPosition::Contains,
                (#[trigger] pattern_sets@[i]).0@,
                true,
                if pattern_sets@[i].1 {
                    CaseMatchMode::Insensitive
                } else {
                    CaseMatchMode::Sensitive
                },
                sample@,
            ),
{
    let mut out: Vec<bool> = Vec::new();
    let mut i: usize = 0;
    while i < pattern_sets.len()
        invariant
            i <= pattern_sets@.len(),
            out@.len() == i,
            forall|j: int|
                0 <= j < i ==> out@[j] == leaf_matches(
                    BoundsPosition::Contains,
                    (#[trigger] pattern_sets@[j]).0@,
                    true,
                    if pattern_sets@[j].1 {
                        CaseMatchMode::Insensitive
                    } else {
                        CaseMatchMode::Sensitive
                    },
                    sample@,
                ),
        decreases pattern_sets@.len() - i,
    {
        let cm = CaseMatchMode::insensitive(pattern_sets[i].1);
        let matched = match_leaf(sample, BoundsPosition::Contains, &pattern_sets[i].0, true, cm);
        out.push(matched);
        i = i + 1;
    }
    out
}

/// Evaluate one case-insensitive "contains" predicate per pattern and
/// collect the result of each.
pub fn contains_conditional_ci(sample: &str, patterns: &Vec<String>) -> (r: Vec<bool>)
    ensures
        r@.len() == patterns@.len(),
        forall|i: int|
            0 <= i < patterns@.len() ==> r@[i] == leaf_matches(
                BoundsPosition::Contains,
                (#[trigger] patterns@[i])@,
                true,
                CaseMatchMode::Insensitive,
                sample@,
            ),
{
    let mut out: Vec<bool> = Vec::new();
    let mut i: usize = 0;
    while i < patterns.len()
        invariant
            i <= patterns@.len(),
            out@.len() == i,
            forall|j: int|
                0 <= j < i ==> out@[j] == leaf_matches(
                    BoundsPosition::Contains,
                    (#[trigger] patterns@[j])@,
                    true,
                    CaseMatchMode::Insensitive,
                    sample@,
                ),
        decreases patterns@.len() - i,
    {
        let matched = match_leaf(
            sample,
            BoundsPosition::Contains,
            &patterns[i],
            true,
            CaseMatchMode::Insensitive,
        );
        out.push(matched);
        i = i + 1;
    }
    out
}

/// Evaluate one case-sensitive "contains" predicate per pattern and collect
/// the result of each.
pub fn contains_conditional_cs(sample: &str, patterns: &Vec<String>) -> (r: Vec<bool>)
    ensures
        r@.len() == patterns@.len(),
        forall|i: int|
            0 <= i < patterns@.len() ==> r@[i] == leaf_matches(
                BoundsPosition::Contains,
                (#[trigger] patterns@[i])@,
                true,
                CaseMatchMode::Sensitive,
                sample@,
            ),
{
    let mut out: Vec<bool> = Vec::new();
    let mut i: usize = 0;
    while i < patterns.len()
        invariant
            i <= patterns@.len(),
            out@.len() == i,
            forall|j: int|
                0 <= j < i ==> out@[j] == leaf_matches(
                    BoundsPosition::Contains,
                    (#[trigger] patterns@[j])@,
                    true,
                    CaseMatchMode::Sensitive,
                    sample@,
                ),
        decreases patterns@.len() - i,
    {
        let matched = match_leaf(
            sample,
            BoundsPosition::Contains,
            &patterns[i],
            true,
            CaseMatchMode::Sensitive,
        );
        out.push(matched);
        i = i + 1;
    }
    out
}

/// Does the sample satisfy every rule in the list of pattern pairs?
pub fn contains_all_conditional(sample: &str, pattern_sets: &Vec<(String, bool)>) -> (r: bool)
    ensures
        r == forall|i: int|
            0 <= i < pattern_sets@.len() ==> leaf_matches(
                BoundsPosition::Contains,
                (#[trigger] pattern_sets@[i]).0@,
                true,
                if pattern_sets@[i].1 {
                    CaseMatchMode::Insensitive
                } else {
                    CaseMatchMode::Sensitive
                },
                sample@,
            ),
{
    let mut i: usize = 0;
    while i < pattern_sets.len()
        invariant
            i <= pattern_sets@.len(),
            forall|j: int|
                0 <= j < i ==> leaf_matches(
                    BoundsPosition::Contains,
                    (#[trigger] pattern_sets@[j]).0@,
                    true,
                    if pattern_sets@[j].1 {
                        CaseMatchMode::Insensitive
                    } else {
                        CaseMatchMode::Sensitive
                    },
                    sample@,
                ),
        decreases pattern_sets@.len() - i,
    {
        let cm = CaseMatchMode::insensitive(pattern_sets[i].1);
        if !match_leaf(sample, BoundsPosition::Contains, &pattern_sets[i].0, true, cm) {
            return false;
        }
        i = i + 1;
    }
    true
}

/// Does the sample contain every pattern, case-insensitively?
pub fn contains_all_conditional_ci(sample: &str, patterns: &Vec<String>) -> (r: bool)
    ensures
        r == forall|i: int|
            0 <= i < patterns@.len() ==> leaf_matches(
                BoundsPosition::Contains,
                (#[trigger] patterns@[i])@,
                true,
                CaseMatchMode::Insensitive,
                sample@,
            ),
{
    let mut i: usize = 0;
    while i < patterns.len()
        invariant
            i <= patterns@.len(),
            forall|j: int|
                0 <= j < i ==> leaf_matches(
                    BoundsPosition::Contains,
                    (#[trigger] patterns@[j])@,
                    true,
                    CaseMatchMode::Insensitive,
                    sample@,
                ),
        decreases patterns@.len() - i,
    {
        if !match_leaf(
            sample,
            BoundsPosition::Contains,
            &patterns[i],
            true,
            CaseMatchMode::Insensitive,
        ) {
            return false;
        }
        i = i + 1;
    }
    true
}

/// Does the sample contain every pattern, case-sensitively?
pub fn contains_all_conditional_cs(sample: &str, patterns: &Vec<String>) -> (r: bool)
    ensures
        r == forall|i: int|
            0 <= i < patterns@.len() ==> leaf_matches(
                BoundsPosition::Contains,
                (#[trigger] patterns@[i])@,
                true,
                CaseMatchMode::Sensitive,
                sample@,
            ),
{
    let mut i: usize = 0;
    while i < patterns.len()
        invariant
            i <= patterns@.len(),
            forall|j: int|
                0 <= j < i ==> leaf_matches(
                    BoundsPosition::Contains,
                    (#[trigger] patterns@[j])@,
                    true,
                    CaseMatchMode::Sensitive,
                    sample@,
                ),
        decreases patterns@.len() - i,
    {
        if !match_leaf(
            sample,
            BoundsPosition::Contains,
            &patterns[i],
            true,
            CaseMatchMode::Sensitive,
        ) {
            return false;
        }
        i = i + 1;
    }
    true
}

/// Does the sample contain any pattern of the pairs?
pub fn contains_any_conditional(sample: &str, pattern_sets: &Vec<(String, bool)>) -> (r: bool)
    ensures
        r == exists|i: int|
            0 <= i < pattern_sets@.len() && leaf_matches(
                BoundsPosition::Contains,
                (#[trigger] pattern_sets@[i]).0@,
                true,
                if pattern_sets@[i].1 {
                    CaseMatchMode::Insensitive
                } else {
                    CaseMatchMode::Sensitive
                },
                sample@,
            ),
{
    let mut i: usize = 0;
    while i < pattern_sets.len()
        invariant
            i <= pattern_sets@.len(),
            forall|j: int|
                0 <= j < i ==> !leaf_matches(
                    BoundsPosition::Contains,
                    (#[trigger] pattern_sets@[j]).0@,
                    true,
                    if pattern_sets@[j].1 {
                        CaseMatchMode::Insensitive
                    } else {
                        CaseMatchMode::Sensitive
                    },
                    sample@,
                ),
        decreases pattern_sets@.len() - i,
    {
        let cm = CaseMatchMode::insensitive(pattern_sets[i].1);
        if match_leaf(sample, BoundsPosition::Contains, &pattern_sets[i].0, true, cm) {
            return true;
        }
        i = i + 1;
    }
    false
}

/// Does the sample contain any of the patterns, case-insensitively?
pub fn contains_any_conditional_ci(sample: &str, patterns: &Vec<String>) -> (r: bool)
    ensures
        r == exists|i: int|
            0 <= i < patterns@.len() && leaf_matches(
                BoundsPosition::Contains,
                (#[trigger] patterns@[i])@,
                true,
                CaseMatchMode::Insensitive,
                sample@,
            ),
{
    let mut i: usize = 0;
    while i < patterns.len()
        invariant
            i <= patterns@.len(),
            forall|j: int|
                0 <= j < i ==> !leaf_matches(
                    BoundsPosition::Contains,
                    (#[trigger] patterns@[j])@,
                    true,
                    CaseMatchMode::Insensitive,
                    sample@,
                ),
        decreases patterns@.len() - i,
    {
        if match_leaf(
            sample,
            BoundsPosition::Contains,
            &patterns[i],
            true,
            CaseMatchMode::Insensitive,
        ) {
            return true;
        }
        i = i + 1;
    }
    false
}

/// Does the sample contain any of the patterns, case-sensitively?
pub fn contains_any_conditional_cs(sample: &str, patterns: &Vec<String>) -> (r: bool)
    ensures
        r == exists|i: int|
            0 <= i < patterns@.len() && leaf_matches(
                BoundsPosition::Contains,
                (#[trigger] patterns@[i])@,
                true,
                CaseMatchMode::Sensitive,
                sample@,
            ),
{
    let mut i: usize = 0;
    while i < patterns.len()
        invariant
            i <= patterns@.len(),
            forall|j: int|
                0 <= j < i ==> !leaf_matches(
                    BoundsPosition::Contains,
                    (#[trigger] patterns@[j])@,
                    true,
                    CaseMatchMode::Sensitive,
                    sample@,
                ),
        decreases patterns@.len() - i,
    {
        if match_leaf(
            sample,
            BoundsPosition::Contains,
            &patterns[i],
            true,
            CaseMatchMode::Sensitive,
        ) {
            return true;
        }
        i = i + 1;
    }
    false
}

// ---------------------------------------------------------------------------
// Filtering collections of strings by rule lists.
// ---------------------------------------------------------------------------

/// The samples of `items` satisfying every rule, in their original order.
pub open spec fn filtered_all(items: Seq<Seq<char>>, rules: Seq<StringBounds>) -> Seq<Seq<char>>
    decreases items.len(),
{
    if items.len() == 0 {
        Seq::empty()
    } else {
        filtered_all(items.drop_last(), rules) + if matches_all(rules, items.last()) {
            seq![items.last()]
        } else {
            Seq::<Seq<char>>::empty()
        }
    }
}

/// The samples of `items` satisfying at least one rule, in their original
/// order.
pub open spec fn filtered_any(items: Seq<Seq<char>>, rules: Seq<StringBounds>) -> Seq<Seq<char>>
    decreases items.len(),
{
    if items.len() == 0 {
        Seq::empty()
    } else {
        filtered_any(items.drop_last(), rules) + if matches_any(rules, items.last()) {
            seq![items.last()]
        } else {
            Seq::<Seq<char>>::empty()
        }
    }
}

/// Keep the strings satisfying every rule in the list, preserving order.
pub fn filter_all_conditional(items: &Vec<String>, pattern_sets: &Vec<StringBounds>) -> (r: Vec<
    String,
>)
    ensures
        r@.map_values(|t: String| t@) == filtered_all(
            items@.map_values(|t: String| t@),
            pattern_sets@,
        ),
{
    let ghost views = items@.map_values(|t: String| t@);
    let mut out: Vec<String> = Vec::new();
    let mut i: usize = 0;
    while i < items.len()
        invariant
            views == items@.map_values(|t: String| t@),
            i <= items@.len(),
            out@.map_values(|t: String| t@) == filtered_all(views.take(i as int), pattern_sets@),
        decreases items@.len() - i,
    {
        proof {
            assert(views.take(i + 1).drop_last() =~= views.take(i as int));
            assert(views.take(i + 1).last() == items@[i as int]@);
        }
        if match_all_conditional(items[i].as_str(), pattern_sets) {
            out.push(items[i].clone());
        }
        i = i + 1;
        assert(out@.map_values(|t: String| t@) =~= filtered_all(
            views.take(i as int),
            pattern_sets@,
        ));
    }
    proof {
        assert(views.take(views.len() as int) =~= views);
    }
    out
}

/// Keep the strings satisfying at least one rule in the list, preserving
/// order.
pub fn filter_any_conditional(items: &Vec<String>, pattern_sets: &Vec<StringBounds>) -> (r: Vec<
    String,
>)
    ensures
        r@.map_values(|t: String| t@) == filtered_any(
            items@.map_values(|t: String| t@),
            pattern_sets@,
        ),
{
    let ghost views = items@.map_values(|t: String| t@);
    let mut out: Vec<String> = Vec::new();
    let mut i: usize = 0;
    while i < items.len()
        invariant
            views == items@.map_values(|t: String| t@),
            i <= items@.len(),
            out@.map_values(|t: String| t@) == filtered_any(views.take(i as int), pattern_sets@),
        decreases items@.len() - i,
    {
        proof {
            assert(views.take(i + 1).drop_last() =~= views.take(i as int));
            assert(views.take(i + 1).last() == items@[i as int]@);
        }
        if match_any_conditional(items[i].as_str(), pattern_sets) {
            out.push(items[i].clone());
        }
        i = i + 1;
        assert(out@.map_values(|t: String| t@) =~= filtered_any(
            views.take(i as int),
            pattern_sets@,
        ));
    }
    proof {
        assert(views.take(views.len() as int) =~= views);
    }
    out
}

/// Filtering by either of two rule lists that match the same samples rule
/// by rule keeps the same strings.
pub proof fn lemma_filtered_all_equiv(
    items: Seq<Seq<char>>,
    a: Seq<StringBounds>,
    b: Seq<StringBounds>,
)
    requires
        crate::enums::rules_equiv(a, b),
    ensures
        filtered_all(items, a) == filtered_all(items, b),
    decreases items.len(),
{
    if items.len() > 0 {
        lemma_filtered_all_equiv(items.drop_last(), a, b);
        assert(matches_all(a, items.last()) == matches_all(b, items.last())) by {
            if matches_all(a, items.last()) {
                assert forall|k: int| 0 <= k < b.len() implies rule_matches(
                    #[trigger] b[k],
                    items.last(),
                ) by {
                    assert(rule_matches(a[k], items.last()));
                }
            }
            if matches_all(b, items.last()) {
                assert forall|k: int| 0 <= k < a.len() implies rule_matches(
                    #[trigger] a[k],
                    items.last(),
                ) by {
                    assert(rule_matches(a[k], items.last()) == rule_matches(b[k], items.last()));
                }
            }
        }
    }
}

/// The same, for filtering by "any".
pub proof fn lemma_filtered_any_equiv(
    items: Seq<Seq<char>>,
    a: Seq<StringBounds>,
    b: Seq<StringBounds>,
)
    requires
        crate::enums::rules_equiv(a, b),
    ensures
        filtered_any(items, a) == filtered_any(items, b),
    decreases items.len(),
{
    if items.len() > 0 {
        lemma_filtered_any_equiv(items.drop_last(), a, b);
        assert(matches_any(a, items.last()) == matches_any(b, items.last())) by {
            if matches_any(a, items.last()) {
                let k = choose|k: int|
                    0 <= k < a.len() && rule_matches(#[trigger] a[k], items.last());
                assert(rule_matches(b[k], items.last()));
            }
            if matches_any(b, items.last()) {
                let k = choose|k: int|
                    0 <= k < b.len() && rule_matches(#[trigger] b[k], items.last());
                assert(rule_matches(a[k], items.last()));
            }
        }
    }
}

/// Keep the strings satisfying every rule accumulated in the builder.
pub fn filter_all_rules(items: &Vec<String>, rules: &crate::bounds_builder::BoundsBuilder) -> (r:
    Vec<String>)
    ensures
        r@.map_values(|t: String| t@) == filtered_all(
            items@.map_values(|t: String| t@),
            rules.rules(),
        ),
{
    let list = rules.as_vec();
    let out = filter_all_conditional(items, &list);
    proof {
        lemma_filtered_all_equiv(items@.map_values(|t: String| t@), list@, rules.rules());
    }
    out
}

/// Keep the strings satisfying at least one rule accumulated in the
/// builder.
pub fn filter_any_rules(items: &Vec<String>, rules: &crate::bounds_builder::BoundsBuilder) -> (r:
    Vec<String>)
    ensures
        r@.map_values(|t: String| t@) == filtered_any(
            items@.map_values(|t: String| t@),
            rules.rules(),
        ),
{
    let list = rules.as_vec();
    let out = filter_any_conditional(items, &list);
    proof {
        lemma_filtered_any_equiv(items@.map_values(|t: String| t@), list@, rules.rules());
    }
    out
}

// ---------------------------------------------------------------------------
// Case-insensitive boundary tests on single strings.
// ---------------------------------------------------------------------------

/// Whole-string equality after lower-casing both sides.
pub fn equals_ci(s: &str, pattern: &str) -> (r: bool)
    ensures
        r == (lower_of(s@) == lower_of(pattern@)),
{
    let a = lowercase(s);
    let b = lowercase(pattern);
    let av = chars_vec(a.as_str());
    let bv = chars_vec(b.as_str());
    eq_chars(&av, &bv)
}

/// Whole-string equality after lower-casing and stripping non-alphanumeric
/// characters from both sides.
pub fn equals_ci_alphanum(s: &str, pattern: &str) -> (r: bool)
    ensures
        r == (kept_alnum(lower_of(s@)) == kept_alnum(lower_of(pattern@))),
{
    let a = lowercase(s);
    let sa = strip_non_alphanum(a.as_str());
    let b = lowercase(pattern);
    let sb = strip_non_alphanum(b.as_str());
    let av = chars_vec(sa.as_str());
    let bv = chars_vec(sb.as_str());
    eq_chars(&av, &bv)
}

/// Prefix test after lower-casing both sides.
pub fn starts_with_ci(s: &str, pattern: &str) -> (r: bool)
    ensures
        r == lower_of(pattern@).is_prefix_of(lower_of(s@)),
{
    let a = lowercase(s);
    let b = lowercase(pattern);
    let av = chars_vec(a.as_str());
    let bv = chars_vec(b.as_str());
    starts_with_chars(&av, &bv)
}

/// Prefix test on the lower-cased, alphanumeric-only sample; the pattern is
/// only lower-cased.
pub fn starts_with_ci_alphanum(s: &str, pattern: &str) -> (r: bool)
    ensures
        r == lower_of(pattern@).is_prefix_of(kept_alnum(lower_of(s@))),
{
    let a = lowercase(s);
    let sa = strip_non_alphanum(a.as_str());
    let b = lowercase(pattern);
    let av = chars_vec(sa.as_str());
    let bv = chars_vec(b.as_str());
    starts_with_chars(&av, &bv)
}

/// Suffix test after lower-casing both sides.
pub fn ends_with_ci(s: &str, pattern: &str) -> (r: bool)
    ensures
        r == lower_of(pattern@).is_suffix_of(lower_of(s@)),
{
    let a = lowercase(s);
    let b = lowercase(pattern);
    let av = chars_vec(a.as_str());
    let bv = chars_vec(b.as_str());
    ends_with_chars(&av, &bv)
}

/// Suffix test on the lower-cased, alphanumeric-only sample; the pattern is
/// only lower-cased.
pub fn ends_with_ci_alphanum(s: &str, pattern: &str) -> (r: bool)
    ensures
        r == lower_of(pattern@).is_suffix_of(kept_alnum(lower_of(s@))),
{
    let a = lowercase(s);
    let sa = strip_non_alphanum(a.as_str());
    let b = lowercase(pattern);
    let av = chars_vec(sa.as_str());
    let bv = chars_vec(b.as_str());
    ends_with_chars(&av, &bv)
}

/// Substring test after lower-casing both sides.
pub fn contains_ci(s: &str, pattern: &str) -> (r: bool)
    ensures
        r == contains_seq(lower_of(s@), lower_of(pattern@)),
{
    let a = lowercase(s);
    let b = lowercase(pattern);
    let av = chars_vec(a.as_str());
    let bv = chars_vec(b.as_str());
    contains_chars(&av, &bv)
}

/// Substring test on the lower-cased, alphanumeric-only sample; the pattern
/// is only lower-cased.
pub fn contains_ci_alphanum(s: &str, pattern: &str) -> (r: bool)
    ensures
        r == contains_seq(kept_alnum(lower_of(s@)), lower_of(pattern@)),
{
    let a = lowercase(s);
    let sa = strip_non_alphanum(a.as_str());
    let b = lowercase(pattern);
    let av = chars_vec(sa.as_str());
    let bv = chars_vec(b.as_str());
    contains_chars(&av, &bv)
}

// ---------------------------------------------------------------------------
// Occurrence indices.
// ---------------------------------------------------------------------------

/// The starting character positions of the non-overlapping, leftmost-first
/// occurrences of `pat` in `hay`, scanning from position `i`.  An empty
/// pattern matches at every position.
pub open spec fn match_indices_from(hay: Seq<char>, pat: Seq<char>, i: int) -> Seq<int>
    decreases hay.len() - i + 1,
    when 0 <= i
{
    if i > hay.len() {
        Seq::empty()
    } else if contains_seq_at(hay, pat, i) {
        seq![i] + match_indices_from(
            hay,
            pat,
            i + if pat.len() == 0 {
                1int
            } else {
                pat.len() as int
            },
        )
    } else if i == hay.len() {
        Seq::empty()
    } else {
        match_indices_from(hay, pat, i + 1)
    }
}

/// The indices of all non-overlapping occurrences of a string pattern,
/// leftmost first (character positions, not byte offsets).
pub fn find_matched_indices(s: &str, pat: &str) -> (r: Vec<usize>)
    ensures
        r@.map_values(|u: usize| u as int) == match_indices_from(s@, pat@, 0),
{
    let hay = chars_vec(s);
    let needle = chars_vec(pat);
    let n = hay.len();
    let mut out: Vec<usize> = Vec::new();
    let mut i: usize = 0;
    while i < n
        invariant
            hay@ == s@,
            needle@ == pat@,
            n == hay@.len(),
            i <= n,
            match_indices_from(s@, pat@, 0) == out@.map_values(|u: usize| u as int)
                + match_indices_from(s@, pat@, i as int),
        decreases n - i,
    {
        let hit = if needle.len() <= n - i {
            matches_at(&hay, &needle, i)
        } else {
            proof {
                assert(!contains_seq_at(s@, pat@, i as int));
            }
            false
        };
        let ghost out_pre = out@;
        let step: usize = if hit {
            out.push(i);
            if needle.len() == 0 {
                1
            } else {
                needle.len()
            }
        } else {
            1
        };
        proof {
            if hit {
                assert(out@.map_values(|u: usize| u as int) =~= out_pre.map_values(
                    |u: usize| u as int,
                ).push(i as int));
                assert(match_indices_from(s@, pat@, i as int) == seq![i as int]
                    + match_indices_from(s@, pat@, i + step));
                assert(out_pre.map_values(|u: usize| u as int) + match_indices_from(
                    s@,
                    pat@,
                    i as int,
                ) =~= out@.map_values(|u: usize| u as int) + match_indices_from(
                    s@,
                    pat@,
                    i + step,
                ));
            }
        }
        i = i + step;
    }
    // position n: only the empty pattern still matches there
    let ghost out_pre = out@;
    if needle.len() == 0 {
        proof {
            assert(s@.subrange(n as int, n as int) =~= pat@);
            assert(contains_seq_at(s@, pat@, n as int));
        }
        out.push(n);
    }
    proof {
        if pat@.len() == 0 {
            assert(match_indices_from(s@, pat@, n as int) == seq![n as int]
                + match_indices_from(s@, pat@, n + 1));
            assert(match_indices_from(s@, pat@, n + 1) =~= Seq::<int>::empty());
            assert(out@.map_values(|u: usize| u as int) =~= out_pre.map_values(
                |u: usize| u as int,
            ).push(n as int));
            assert(out_pre.map_values(|u: usize| u as int) + match_indices_from(
                s@,
                pat@,
                n as int,
            ) =~= out@.map_values(|u: usize| u as int));
        } else {
            assert(!contains_seq_at(s@, pat@, n as int));
            assert(match_indices_from(s@, pat@, n as int) =~= Seq::<int>::empty());
            assert(out@.map_values(|u: usize| u as int) + Seq::<int>::empty() =~= out@.map_values(
                |u: usize| u as int,
            ));
        }
    }
    out
}

/// The indices at which the character `pat` occurs, in order.
pub fn find_char_indices(s: &str, pat: char) -> (r: Vec<usize>)
    ensures
        r@.map_values(|u: usize| u as int) == char_indices_of(s@, pat, 0),
{
    let hay = chars_vec(s);
    let mut out: Vec<usize> = Vec::new();
    let mut i: usize = 0;
    while i < hay.len()
        invariant
            hay@ == s@,
            i <= hay@.len(),
            char_indices_of(s@, pat, 0) == out@.map_values(|u: usize| u as int)
                + char_indices_of(s@, pat, i as int),
        decreases hay@.len() - i,
    {
        let ghost out_pre = out@;
        if hay[i] == pat {
            out.push(i);
            proof {
                assert(out@.map_values(|u: usize| u as int) =~= out_pre.map_values(
                    |u: usize| u as int,
                ).push(i as int));
                assert(out_pre.map_values(|u: usize| u as int) + char_indices_of(s@, pat, i as int)
                    =~= out@.map_values(|u: usize| u as int) + char_indices_of(
                    s@,
                    pat,
                    i + 1,
                ));
            }
        }
        i = i + 1;
    }
    proof {
        assert(char_indices_of(s@, pat, i as int) =~= Seq::<int>::empty());
        assert(out@.map_values(|u: usize| u as int) + Seq::<int>::empty() =~= out@.map_values(
            |u: usize| u as int,
        ));
    }
    out
}

/// The positions at or after `i` whose character is `c`, in order.
pub open spec fn char_indices_of(s: Seq<char>, c: char, i: int) -> Seq<int>
    decreases s.len() - i + 1,
    when 0 <= i
{
    if i >= s.len() {
        Seq::empty()
    } else if s[i] == c {
        seq![i] + char_indices_of(s, c, i + 1)
    } else {
        char_indices_of(s, c, i + 1)
    }
}

} // verus!
