//! The matching rule types: case modes, boundary positions, and the
//! recursive `StringBounds` tree of predicates joined by And/Or, together
//! with the specification of what it means for a rule to match a sample.

use vstd::prelude::*;
use crate::chars::{kept_alnum, lower_of};

verus! {

/// The case- and alphanumeric-sensitivity policy applied before a boundary
/// match test.
#[derive(Debug, Clone, Copy, PartialEq, Eq, Structural)]
pub enum CaseMatchMode {
    Sensitive,
    Insensitive,
    AlphanumInsensitive,
}

impl CaseMatchMode {
    /// The mode selected by a plain case-insensitivity flag.
    pub fn insensitive(case_insensitive: bool) -> (r: Self)
        ensures
            r == if case_insensitive {
                CaseMatchMode::Insensitive
            } else {
                CaseMatchMode::Sensitive
            },
    {
        if case_insensitive {
            Self::Insensitive
        } else {
            Self::Sensitive
        }
    }
}

/// Where in the sample a pattern must appear.
#[derive(Debug, Clone, Copy, PartialEq, Eq, Structural)]
pub enum BoundsPosition {
    Starts,
    Ends,
    Contains,
    Whole,
}

/// A single matching rule (pattern, positivity flag and case mode at one
/// boundary position), or a list of rules joined by And or Or.
#[derive(Debug)]
pub enum StringBounds {
    StartsWith(String, bool, CaseMatchMode),
    EndsWith(String, bool, CaseMatchMode),
    Contains(String, bool, CaseMatchMode),
    Whole(String, bool, CaseMatchMode),
    And(Vec<StringBounds>),
    Or(Vec<StringBounds>),
}

/// The sample transformed for a case mode: lower-cased when insensitive, and
/// additionally stripped of non-alphanumeric characters in alphanumeric
/// mode.
pub open spec fn sample_for_mode(sample: Seq<char>, cm: CaseMatchMode) -> Seq<char> {
    match cm {
        CaseMatchMode::Sensitive => sample,
        CaseMatchMode::Insensitive => lower_of(sample),
        CaseMatchMode::AlphanumInsensitive => kept_alnum(lower_of(sample)),
    }
}

/// The pattern transformed for a case mode: lower-cased when insensitive,
/// but never stripped of non-alphanumeric characters.
pub open spec fn pattern_for_mode(p: Seq<char>, cm: CaseMatchMode) -> Seq<char> {
    match cm {
        CaseMatchMode::Sensitive => p,
        CaseMatchMode::Insensitive => lower_of(p),
        CaseMatchMode::AlphanumInsensitive => lower_of(p),
    }
}

/// The needle occurs in the haystack starting at position `i`.
pub open spec fn contains_seq_at(hay: Seq<char>, needle: Seq<char>, i: int) -> bool {
    0 <= i && i + needle.len() <= hay.len() && hay.subrange(i, i + needle.len()) == needle
}

/// The needle occurs somewhere in the haystack.
pub open spec fn contains_seq(hay: Seq<char>, needle: Seq<char>) -> bool {
    exists|i: int| contains_seq_at(hay, needle, i)
}

/// The raw boundary test of a single predicate, before the positivity flag.
pub open spec fn position_test(
    position: BoundsPosition,
    pattern: Seq<char>,
    sample: Seq<char>,
) -> bool {
    match position {
        BoundsPosition::Starts => pattern.is_prefix_of(sample),
        BoundsPosition::Ends => pattern.is_suffix_of(sample),
        BoundsPosition::Whole => sample == pattern,
        BoundsPosition::Contains => contains_seq(sample, pattern),
    }
}

/// A single predicate matches when its raw boundary test, taken over the
/// case-transformed sample and pattern, equals its positivity flag.
pub open spec fn leaf_matches(
    position: BoundsPosition,
    pattern: Seq<char>,
    positive: bool,
    cm: CaseMatchMode,
    sample: Seq<char>,
) -> bool {
    position_test(position, pattern_for_mode(pattern, cm), sample_for_mode(sample, cm))
        == positive
}

/// Whether a rule tree matches a sample: predicates by `leaf_matches`, an
/// And node when every child matches (vacuously true when empty), an Or node
/// when some child matches (vacuously false when empty).
pub open spec fn rule_matches(rule: StringBounds, sample: Seq<char>) -> bool
    decreases rule,
{
    match rule {
        StringBounds::StartsWith(p, positive, cm) => leaf_matches(
            BoundsPosition::Starts,
            p@,
            positive,
            cm,
            sample,
        ),
        StringBounds::EndsWith(p, positive, cm) => leaf_matches(
            BoundsPosition::Ends,
            p@,
            positive,
            cm,
            sample,
        ),
        StringBounds::Contains(p, positive, cm) => leaf_matches(
            BoundsPosition::Contains,
            p@,
            positive,
            cm,
            sample,
        ),
        StringBounds::Whole(p, positive, cm) => leaf_matches(
            BoundsPosition::Whole,
            p@,
            positive,
            cm,
            sample,
        ),
        StringBounds::And(rules) => forall|i: int|
            0 <= i < rules@.len() ==> rule_matches(#[trigger] rules@[i], sample),
        StringBounds::Or(rules) => exists|i: int|
            0 <= i < rules@.len() && rule_matches(#[trigger] rules@[i], sample),
    }
}

/// Every rule in the list matches the sample.
pub open spec fn matches_all(rules: Seq<StringBounds>, sample: Seq<char>) -> bool {
    forall|i: int| 0 <= i < rules.len() ==> rule_matches(#[trigger] rules[i], sample)
}

/// Some rule in the list matches the sample.
pub open spec fn matches_any(rules: Seq<StringBounds>, sample: Seq<char>) -> bool {
    exists|i: int| 0 <= i < rules.len() && rule_matches(#[trigger] rules[i], sample)
}

impl StringBounds {
    /// Build a predicate at the given boundary position.
    pub fn new(
        mode: BoundsPosition,
        txt: String,
        is_positive: bool,
        case_mode: CaseMatchMode,
    ) -> (r: StringBounds)
        ensures
            r == match mode {
                BoundsPosition::Starts => StringBounds::StartsWith(txt, is_positive, case_mode),
                BoundsPosition::Ends => StringBounds::EndsWith(txt, is_positive, case_mode),
                BoundsPosition::Whole => StringBounds::Whole(txt, is_positive, case_mode),
                BoundsPosition::Contains => StringBounds::Contains(txt, is_positive, case_mode),
            },
    {
        match mode {
            BoundsPosition::Starts => Self::StartsWith(txt, is_positive, case_mode),
            BoundsPosition::Ends => Self::EndsWith(txt, is_positive, case_mode),
            BoundsPosition::Whole => Self::Whole(txt, is_positive, case_mode),
            BoundsPosition::Contains => Self::Contains(txt, is_positive, case_mode),
        }
    }

    /// The case mode of a predicate; And/Or nodes report Sensitive.
    pub fn case_mode(&self) -> (r: CaseMatchMode)
        ensures
            r == self.spec_case_mode(),
    {
        match self {
            Self::StartsWith(_, _, cm) => *cm,
            Self::EndsWith(_, _, cm) => *cm,
            Self::Contains(_, _, cm) => *cm,
            Self::Whole(_, _, cm) => *cm,
            _ => CaseMatchMode::Sensitive,
        }
    }

    /// The case mode carried by a predicate node.
    pub open spec fn spec_case_mode(&self) -> CaseMatchMode {
        match self {
            Self::StartsWith(_, _, cm) => *cm,
            Self::EndsWith(_, _, cm) => *cm,
            Self::Contains(_, _, cm) => *cm,
            Self::Whole(_, _, cm) => *cm,
            _ => CaseMatchMode::Sensitive,
        }
    }

    /// Whether the predicate compares case-insensitively (in either
    /// insensitive mode); And/Or nodes report false.
    pub fn case_insensitive(&self) -> (r: bool)
        ensures
            r == (self.is_leaf() && self.spec_case_mode() != CaseMatchMode::Sensitive),
    {
        match self {
            Self::StartsWith(_, _, cm) | Self::EndsWith(_, _, cm) | Self::Contains(_, _, cm)
                | Self::Whole(_, _, cm) => match cm {
                CaseMatchMode::Sensitive => false,
                _ => true,
            },
            _ => false,
        }
    }

    /// Whether this node is a single predicate rather than an And/Or list.
    pub open spec fn is_leaf(&self) -> bool {
        !(self is And) && !(self is Or)
    }

    /// The pattern of a predicate; And/Or nodes report the empty string.
    pub fn pattern(&self) -> (r: String)
        ensures
            r@ == self.spec_pattern(),
    {
        match self {
            Self::StartsWith(txt, _, _) => txt.clone(),
            Self::EndsWith(txt, _, _) => txt.clone(),
            Self::Contains(txt, _, _) => txt.clone(),
            Self::Whole(txt, _, _) => txt.clone(),
            _ => String::new(),
        }
    }

    /// The pattern carried by a predicate node.
    pub open spec fn spec_pattern(&self) -> Seq<char> {
        match self {
            Self::StartsWith(txt, _, _) => txt@,
            Self::EndsWith(txt, _, _) => txt@,
            Self::Contains(txt, _, _) => txt@,
            Self::Whole(txt, _, _) => txt@,
            _ => Seq::empty(),
        }
    }

    /// The positivity flag of a predicate; And/Or nodes report false.
    pub fn is_positive(&self) -> (r: bool)
        ensures
            r == self.spec_is_positive(),
    {
        match self {
            Self::StartsWith(_, is_pos, _) => *is_pos,
            Self::EndsWith(_, is_pos, _) => *is_pos,
            Self::Contains(_, is_pos, _) => *is_pos,
            Self::Whole(_, is_pos, _) => *is_pos,
            _ => false,
        }
    }

    /// The positivity flag carried by a predicate node.
    pub open spec fn spec_is_positive(&self) -> bool {
        match self {
            Self::StartsWith(_, is_pos, _) => *is_pos,
            Self::EndsWith(_, is_pos, _) => *is_pos,
            Self::Contains(_, is_pos, _) => *is_pos,
            Self::Whole(_, is_pos, _) => *is_pos,
            _ => false,
        }
    }

    /// Whether this is a starts-with predicate.
    pub fn starts_with(&self) -> (r: bool)
        ensures
            r == (self is StartsWith),
    {
        match self {
            Self::StartsWith(..) => true,
            _ => false,
        }
    }

    /// Whether this is an ends-with predicate.
    pub fn ends_with(&self) -> (r: bool)
        ensures
            r == (self is EndsWith),
    {
        match self {
            Self::EndsWith(..) => true,
            _ => false,
        }
    }

    /// Whether this is a whole-match predicate.
    pub fn matches_whole(&self) -> (r: bool)
        ensures
            r == (self is Whole),
    {
        match self {
            Self::Whole(..) => true,
            _ => false,
        }
    }
}

/// Two rules match exactly the same samples.
pub open spec fn rule_equiv(a: StringBounds, b: StringBounds) -> bool {
    forall|s: Seq<char>| #[trigger] rule_matches(a, s) == rule_matches(b, s)
}

/// Two rule lists have the same length and match the same samples rule by
/// rule.
pub open spec fn rules_equiv(a: Seq<StringBounds>, b: Seq<StringBounds>) -> bool {
    &&& a.len() == b.len()
    &&& forall|k: int, s: Seq<char>|
        0 <= k < a.len() ==> #[trigger] rule_matches(a[k], s) == rule_matches(b[k], s)
}

/// A top-level rule list evaluated under "all" behaves as an implicit And
/// node, and under "any" as an implicit Or node.
pub proof fn lemma_aggregates_are_implicit_nodes(rules: Vec<StringBounds>, sample: Seq<char>)
    ensures
        rule_matches(StringBounds::And(rules), sample) == matches_all(rules@, sample),
        rule_matches(StringBounds::Or(rules), sample) == matches_any(rules@, sample),
{
    assert(StringBounds::And(rules)->And_0 == rules);
    assert(StringBounds::Or(rules)->Or_0 == rules);
    assert(rule_matches(StringBounds::And(rules), sample) == (forall|i: int|
        0 <= i < rules@.len() ==> rule_matches(#[trigger] rules@[i], sample)));
    assert(rule_matches(StringBounds::Or(rules), sample) == (exists|i: int|
        0 <= i < rules@.len() && rule_matches(#[trigger] rules@[i], sample)));
}

/// A predicate with a false positivity flag matches exactly the samples its
/// positive counterpart rejects: positivity is an equivalence applied after
/// the raw boundary test, not a separate negation pass.
pub proof fn lemma_negative_flag_inverts(
    position: BoundsPosition,
    pattern: Seq<char>,
    cm: CaseMatchMode,
    sample: Seq<char>,
)
    ensures
        leaf_matches(position, pattern, false, cm, sample) == !leaf_matches(
            position,
            pattern,
            true,
            cm,
            sample,
        ),
{
    let raw = position_test(position, pattern_for_mode(pattern, cm), sample_for_mode(sample, cm));
    assert(leaf_matches(position, pattern, false, cm, sample) == (raw == false));
    assert(leaf_matches(position, pattern, true, cm, sample) == (raw == true));
}

/// Vacuous truth at the boundary: an empty And node matches every sample.
pub proof fn lemma_empty_and_matches(rules: Vec<StringBounds>, sample: Seq<char>)
    requires
        rules@.len() == 0,
    ensures
        rule_matches(StringBounds::And(rules), sample),
{
}

/// Vacuous falsity at the boundary: an empty Or node matches no sample.
pub proof fn lemma_empty_or_matches_nothing(rules: Vec<StringBounds>, sample: Seq<char>)
    requires
        rules@.len() == 0,
    ensures
        !rule_matches(StringBounds::Or(rules), sample),
{
}

/// The same boundary behaviour for the top-level aggregates: an empty rule
/// list satisfies "all" and fails "any", for every sample.
pub proof fn lemma_vacuous_rule_lists(sample: Seq<char>)
    ensures
        matches_all(Seq::<StringBounds>::empty(), sample),
        !matches_any(Seq::<StringBounds>::empty(), sample),
{
}

impl Clone for StringBounds {
    /// A deep copy that matches exactly the same samples as the original.
    fn clone(&self) -> (r: Self)
        ensures
            rule_equiv(r, *self),
        decreases *self,
    {
        match self {
            Self::StartsWith(p, pos, cm) => Self::StartsWith(p.clone(), *pos, *cm),
            Self::EndsWith(p, pos, cm) => Self::EndsWith(p.clone(), *pos, *cm),
            Self::Contains(p, pos, cm) => Self::Contains(p.clone(), *pos, *cm),
            Self::Whole(p, pos, cm) => Self::Whole(p.clone(), *pos, *cm),
            Self::And(rules) => {
                let cloned = clone_rules(rules);
                let r = Self::And(cloned);
                proof {
                    assert forall|s: Seq<char>| #[trigger] rule_matches(r, s) == rule_matches(
                        *self,
                        s,
                    ) by {
                        assert(rule_matches(r, s) == (forall|i: int|
                            0 <= i < cloned@.len() ==> rule_matches(#[trigger] cloned@[i], s)));
                        assert(rule_matches(*self, s) == (forall|i: int|
                            0 <= i < rules@.len() ==> rule_matches(#[trigger] rules@[i], s)));
                        if forall|i: int|
                            0 <= i < cloned@.len() ==> rule_matches(#[trigger] cloned@[i], s) {
                            assert forall|i: int|
                                0 <= i < rules@.len() implies rule_matches(
                                #[trigger] rules@[i],
                                s,
                            ) by {
                                assert(rule_matches(cloned@[i], s));
                            }
                        }
                        if forall|i: int|
                            0 <= i < rules@.len() ==> rule_matches(#[trigger] rules@[i], s) {
                            assert forall|i: int|
                                0 <= i < cloned@.len() implies rule_matches(
                                #[trigger] cloned@[i],
                                s,
                            ) by {
                                assert(rule_matches(rules@[i], s));
                            }
                        }
                    }
                }
                r
            },
            Self::Or(rules) => {
                let cloned = clone_rules(rules);
                let r = Self::Or(cloned);
                proof {
                    assert forall|s: Seq<char>| #[trigger] rule_matches(r, s) == rule_matches(
                        *self,
                        s,
                    ) by {
                        if rule_matches(r, s) {
                            let i = choose|i: int|
                                0 <= i < cloned@.len() && rule_matches(#[trigger] cloned@[i], s);
                            assert(rule_matches(rules@[i], s));
                        }
                        if rule_matches(*self, s) {
                            let i = choose|i: int|
                                0 <= i < rules@.len() && rule_matches(#[trigger] rules@[i], s);
                            assert(rule_matches(cloned@[i], s));
                        }
                    }
                }
                r
            },
        }
    }
}

/// A deep copy of a rule list that matches the same samples rule by rule.
pub fn clone_rules(rules: &Vec<StringBounds>) -> (r: Vec<StringBounds>)
    ensures
        rules_equiv(r@, rules@),
    decreases rules@,
{
    let mut out: Vec<StringBounds> = Vec::new();
    let mut i: usize = 0;
    while i < rules.len()
        invariant
            i <= rules@.len(),
            out@.len() == i,
            forall|k: int, s: Seq<char>|
                0 <= k < i ==> #[trigger] rule_matches(out@[k], s) == rule_matches(rules@[k], s),
        decreases rules@.len() - i,
    {
        out.push(rules[i].clone());
        i = i + 1;
    }
    out
}

} // verus!
