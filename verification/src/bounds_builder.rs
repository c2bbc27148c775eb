//! A fluent accumulator of `StringBounds` rules.  Each call appends one
//! node (a predicate, or a nested And/Or group) and returns the builder, so
//! that rule sets can be written as chains; `as_vec` reads the accumulated
//! list out as an independent snapshot.

use vstd::prelude::*;
use crate::enums::{
    BoundsPosition, CaseMatchMode, StringBounds, clone_rules, leaf_matches, matches_all,
    matches_any, rule_matches, rules_equiv,
};

verus! {

/// The case mode selected by a plain case-insensitivity flag.
pub open spec fn case_mode_of(case_insensitive: bool) -> CaseMatchMode {
    if case_insensitive {
        CaseMatchMode::Insensitive
    } else {
        CaseMatchMode::Sensitive
    }
}

/// Build a set of string matching rules.
pub struct BoundsBuilder {
    string_bounds: Vec<StringBounds>,
}

/// The builder `r` is `old` with one predicate appended: the new rule
/// matches a sample exactly when the predicate at `position` with the given
/// pattern, positivity and case mode does.
pub open spec fn appended_leaf(
    r: BoundsBuilder,
    old: BoundsBuilder,
    position: BoundsPosition,
    pattern: Seq<char>,
    positive: bool,
    cm: CaseMatchMode,
) -> bool {
    &&& r.rules().len() == old.rules().len() + 1
    &&& r.rules().drop_last() == old.rules()
    &&& forall|s: Seq<char>|
        #[trigger] rule_matches(r.rules().last(), s) == leaf_matches(
            position,
            pattern,
            positive,
            cm,
            s,
        )
}

/// The builder `r` is `old` with one Or group appended, whose members are
/// predicates at `position` over the given patterns, all with the same
/// positivity and case mode.
pub open spec fn appended_or_leaves(
    r: BoundsBuilder,
    old: BoundsBuilder,
    position: BoundsPosition,
    patterns: Seq<Seq<char>>,
    positive: bool,
    cm: CaseMatchMode,
) -> bool {
    &&& r.rules().len() == old.rules().len() + 1
    &&& r.rules().drop_last() == old.rules()
    &&& forall|s: Seq<char>|
        #[trigger] rule_matches(r.rules().last(), s) == exists|k: int|
            0 <= k < patterns.len() && leaf_matches(position, patterns[k], positive, cm, s)
}

/// The views of a list of pattern strings.
pub open spec fn pattern_views(patterns: Seq<String>) -> Seq<Seq<char>> {
    patterns.map_values(|p: String| p@)
}

/// Predicates at one position over each pattern, sharing a positivity flag
/// and case mode.
pub(crate) fn bounds_from_patterns(
    patterns: &Vec<String>,
    case_mode: CaseMatchMode,
    position: BoundsPosition,
    positive: bool,
) -> (r: Vec<StringBounds>)
    ensures
        r@.len() == patterns@.len(),
        forall|k: int, s: Seq<char>|
            0 <= k < r@.len() ==> #[trigger] rule_matches(r@[k], s) == leaf_matches(
                position,
                patterns@[k]@,
                positive,
                case_mode,
                s,
            ),
{
    let mut out: Vec<StringBounds> = Vec::new();
    let mut i: usize = 0;
    while i < patterns.len()
        invariant
            i <= patterns@.len(),
            out@.len() == i,
            forall|k: int, s: Seq<char>|
                0 <= k < i ==> #[trigger] rule_matches(out@[k], s) == leaf_matches(
                    position,
                    patterns@[k]@,
                    positive,
                    case_mode,
                    s,
                ),
        decreases patterns@.len() - i,
    {
        let p = patterns[i].clone();
        out.push(StringBounds::new(position, p, positive, case_mode));
        i = i + 1;
    }
    out
}

impl BoundsBuilder {
    /// The accumulated rule list.
    pub closed spec fn rules(&self) -> Seq<StringBounds> {
        self.string_bounds@
    }

    /// An empty builder.
    pub fn new() -> (r: Self)
        ensures
            r.rules().len() == 0,
    {
        BoundsBuilder { string_bounds: Vec::new() }
    }

    /// An independent snapshot of the accumulated rules, matching the same
    /// samples rule by rule.
    pub fn as_vec(&self) -> (r: Vec<StringBounds>)
        ensures
            rules_equiv(r@, self.rules()),
    {
        clone_rules(&self.string_bounds)
    }

    /// Append one predicate node.
    fn push_bound(
        self,
        position: BoundsPosition,
        pattern: &str,
        positive: bool,
        cm: CaseMatchMode,
    ) -> (r: Self)
        ensures
            appended_leaf(r, self, position, pattern@, positive, cm),
    {
        let mut rules = self.string_bounds;
        let owned = String::from_str(pattern);
        rules.push(StringBounds::new(position, owned, positive, cm));
        let r = BoundsBuilder { string_bounds: rules };
        proof {
            assert(r.rules().drop_last() =~= self.rules());
        }
        r
    }

    /// Append one Or group of same-position predicates.
    fn push_or_group(
        self,
        patterns: &Vec<String>,
        case_mode: CaseMatchMode,
        position: BoundsPosition,
        positive: bool,
    ) -> (r: Self)
        ensures
            appended_or_leaves(r, self, position, pattern_views(patterns@), positive, case_mode),
    {
        let bounds = bounds_from_patterns(patterns, case_mode, position, positive);
        let mut rules = self.string_bounds;
        rules.push(StringBounds::Or(bounds));
        let r = BoundsBuilder { string_bounds: rules };
        proof {
            assert(r.rules().drop_last() =~= self.rules());
            assert(r.rules().last() == StringBounds::Or(bounds));
            let pats = pattern_views(patterns@);
            assert forall|s: Seq<char>| #[trigger] rule_matches(r.rules().last(), s) == exists|
                k: int,
            |
                0 <= k < pats.len() && leaf_matches(position, pats[k], positive, case_mode, s) by {
                if rule_matches(r.rules().last(), s) {
                    assert(exists|k: int|
                        0 <= k < bounds@.len() && rule_matches(#[trigger] bounds@[k], s));
                    let k = choose|k: int|
                        0 <= k < bounds@.len() && rule_matches(#[trigger] bounds@[k], s);
                    assert(leaf_matches(position, pats[k], positive, case_mode, s));
                    assert(exists|j: int|
                        0 <= j < pats.len() && leaf_matches(
                            position,
                            #[trigger] pats[j],
                            positive,
                            case_mode,
                            s,
                        ));
                }
                if exists|k: int|
                    0 <= k < pats.len() && leaf_matches(
                        position,
                        #[trigger] pats[k],
                        positive,
                        case_mode,
                        s,
                    ) {
                    let k = choose|k: int|
                        0 <= k < pats.len() && leaf_matches(
                            position,
                            #[trigger] pats[k],
                            positive,
                            case_mode,
                            s,
                        );
                    assert(rule_matches(bounds@[k], s));
                    assert(rule_matches(r.rules().last(), s));
                }
            }
        }
        r
    }

    /// Append a nested And group holding the rules of another builder.
    pub fn and(self, rules: BoundsBuilder) -> (r: Self)
        ensures
            r.rules().len() == self.rules().len() + 1,
            r.rules().drop_last() == self.rules(),
            forall|s: Seq<char>|
                #[trigger] rule_matches(r.rules().last(), s) == matches_all(rules.rules(), s),
    {
        let inner = rules.as_vec();
        let mut list = self.string_bounds;
        list.push(StringBounds::And(inner));
        let r = BoundsBuilder { string_bounds: list };
        proof {
            assert(r.rules().drop_last() =~= self.rules());
            let node = r.rules().last();
            assert(node matches StringBounds::And(v) && rules_equiv(v@, rules.rules()));
            assert forall|s: Seq<char>| #[trigger] rule_matches(node, s) == matches_all(
                rules.rules(),
                s,
            ) by {
                let v = node->And_0;
                if rule_matches(node, s) {
                    assert forall|k: int| 0 <= k < rules.rules().len() implies rule_matches(
                        #[trigger] rules.rules()[k],
                        s,
                    ) by {
                        assert(rule_matches(v@[k], s));
                    }
                }
                if matches_all(rules.rules(), s) {
                    assert forall|k: int| 0 <= k < v@.len() implies rule_matches(
                        #[trigger] v@[k],
                        s,
                    ) by {
                        assert(rule_matches(rules.rules()[k], s));
                    }
                }
            }
        }
        r
    }

    /// Append a nested Or group holding the rules of another builder.
    pub fn or(self, rules: BoundsBuilder) -> (r: Self)
        ensures
            r.rules().len() == self.rules().len() + 1,
            r.rules().drop_last() == self.rules(),
            forall|s: Seq<char>|
                #[trigger] rule_matches(r.rules().last(), s) == matches_any(rules.rules(), s),
    {
        let inner = rules.as_vec();
        let mut list = self.string_bounds;
        list.push(StringBounds::Or(inner));
        let r = BoundsBuilder { string_bounds: list };
        proof {
            assert(r.rules().drop_last() =~= self.rules());
            let node = r.rules().last();
            assert(node matches StringBounds::Or(v) && rules_equiv(v@, rules.rules()));
            assert forall|s: Seq<char>| #[trigger] rule_matches(node, s) == matches_any(
                rules.rules(),
                s,
            ) by {
                let v = node->Or_0;
                if rule_matches(node, s) {
                    let k = choose|k: int| 0 <= k < v@.len() && rule_matches(#[trigger] v@[k], s);
                    assert(rule_matches(rules.rules()[k], s));
                }
                if matches_any(rules.rules(), s) {
                    let k = choose|k: int|
                        0 <= k < rules.rules().len() && rule_matches(
                            #[trigger] rules.rules()[k],
                            s,
                        );
                    assert(rule_matches(v@[k], s));
                }
            }
        }
        r
    }

    /// Append a "starts_with" rule with positivity and case-insensitivity
    /// flags.
    fn starts_with(self, pattern: &str, is_positive: bool, case_insensitive: bool) -> (r: Self)
        ensures
            appended_leaf(
                r,
                self,
                BoundsPosition::Starts,
                pattern@,
                is_positive,
                case_mode_of(case_insensitive),
            ),
    {
        self.push_bound(
            BoundsPosition::Starts,
            pattern,
            is_positive,
            CaseMatchMode::insensitive(case_insensitive),
        )
    }

    /// Append a "starts_with" rule with a positivity flag, case-insensitive.
    pub fn starts_with_ci(self, pattern: &str, is_positive: bool) -> (r: Self)
        ensures
            appended_leaf(
                r,
                self,
                BoundsPosition::Starts,
                pattern@,
                is_positive,
                CaseMatchMode::Insensitive,
            ),
    {
        self.starts_with(pattern, is_positive, true)
    }

    /// Append a "starts_with" rule over alphanumeric characters only.
    pub fn starts_with_ci_alphanum(self, pattern: &str, is_positive: bool) -> (r: Self)
        ensures
            appended_leaf(
                r,
                self,
                BoundsPosition::Starts,
                pattern@,
                is_positive,
                CaseMatchMode::AlphanumInsensitive,
            ),
    {
        self.push_bound(
            BoundsPosition::Starts,
            pattern,
            is_positive,
            CaseMatchMode::AlphanumInsensitive,
        )
    }

    /// Append a "starts_with" rule with a positivity flag, case-sensitive.
    pub fn starts_with_cs(self, pattern: &str, is_positive: bool) -> (r: Self)
        ensures
            appended_leaf(
                r,
                self,
                BoundsPosition::Starts,
                pattern@,
                is_positive,
                CaseMatchMode::Sensitive,
            ),
    {
        self.starts_with(pattern, is_positive, false)
    }

    /// Append a positive "starts_with" rule with a case-insensitivity flag.
    pub fn starting_with(self, pattern: &str, case_insensitive: bool) -> (r: Self)
        ensures
            appended_leaf(
                r,
                self,
                BoundsPosition::Starts,
                pattern@,
                true,
                case_mode_of(case_insensitive),
            ),
    {
        self.starts_with(pattern, true, case_insensitive)
    }

    /// Append a positive case-insensitive "starts_with" rule.
    pub fn starting_with_ci(self, pattern: &str) -> (r: Self)
        ensures
            appended_leaf(
                r,
                self,
                BoundsPosition::Starts,
                pattern@,
                true,
                CaseMatchMode::Insensitive,
            ),
    {
        self.starting_with(pattern, true)
    }

    /// Append a positive alphanumeric-insensitive "starts_with" rule.
    pub fn starting_with_ci_alphanum(self, pattern: &str) -> (r: Self)
        ensures
            appended_leaf(
                r,
                self,
                BoundsPosition::Starts,
                pattern@,
                true,
                CaseMatchMode::AlphanumInsensitive,
            ),
    {
        self.starts_with_ci_alphanum(pattern, true)
    }

    /// Append a positive case-sensitive "starts_with" rule.
    pub fn starting_with_cs(self, pattern: &str) -> (r: Self)
        ensures
            appended_leaf(
                r,
                self,
                BoundsPosition::Starts,
                pattern@,
                true,
                CaseMatchMode::Sensitive,
            ),
    {
        self.starting_with(pattern, false)
    }

    /// Append a negative "starts_with" rule with a case-insensitivity flag.
    pub fn not_starting_with(self, pattern: &str, case_insensitive: bool) -> (r: Self)
        ensures
            appended_leaf(
                r,
                self,
                BoundsPosition::Starts,
                pattern@,
                false,
                case_mode_of(case_insensitive),
            ),
    {
        self.starts_with(pattern, false, case_insensitive)
    }

    /// Append a negative case-insensitive "starts_with" rule.
    pub fn not_starting_with_ci(self, pattern: &str) -> (r: Self)
        ensures
            appended_leaf(
                r,
                self,
                BoundsPosition::Starts,
                pattern@,
                false,
                CaseMatchMode::Insensitive,
            ),
    {
        self.not_starting_with(pattern, true)
    }

    /// Append a negative alphanumeric-insensitive "starts_with" rule.
    pub fn not_starting_with_ci_alphanum(self, pattern: &str) -> (r: Self)
        ensures
            appended_leaf(
                r,
                self,
                BoundsPosition::Starts,
                pattern@,
                false,
                CaseMatchMode::AlphanumInsensitive,
            ),
    {
        self.starts_with_ci_alphanum(pattern, false)
    }

    /// Append a negative case-sensitive "starts_with" rule.
    pub fn not_starting_with_cs(self, pattern: &str) -> (r: Self)
        ensures
            appended_leaf(
                r,
                self,
                BoundsPosition::Starts,
                pattern@,
                false,
                CaseMatchMode::Sensitive,
            ),
    {
        self.not_starting_with(pattern, false)
    }

    /// Append a "contains" rule with positivity and case-insensitivity
    /// flags.
    pub fn contains(self, pattern: &str, is_positive: bool, case_insensitive: bool) -> (r: Self)
        ensures
            appended_leaf(
                r,
                self,
                BoundsPosition::Contains,
                pattern@,
                is_positive,
                case_mode_of(case_insensitive),
            ),
    {
        self.push_bound(
            BoundsPosition::Contains,
            pattern,
            is_positive,
            CaseMatchMode::insensitive(case_insensitive),
        )
    }

    /// Append a "contains" rule over alphanumeric characters only.
    pub fn contains_ci_alphanum(self, pattern: &str, is_positive: bool) -> (r: Self)
        ensures
            appended_leaf(
                r,
                self,
                BoundsPosition::Contains,
                pattern@,
                is_positive,
                CaseMatchMode::AlphanumInsensitive,
            ),
    {
        self.push_bound(
            BoundsPosition::Contains,
            pattern,
            is_positive,
            CaseMatchMode::AlphanumInsensitive,
        )
    }

    /// Append a "contains" rule with a positivity flag, case-insensitive.
    pub fn contains_ci(self, pattern: &str, is_positive: bool) -> (r: Self)
        ensures
            appended_leaf(
                r,
                self,
                BoundsPosition::Contains,
                pattern@,
                is_positive,
                CaseMatchMode::Insensitive,
            ),
    {
        self.contains(pattern, is_positive, true)
    }

    /// Append a "contains" rule with a positivity flag, case-sensitive.
    pub fn contains_cs(self, pattern: &str, is_positive: bool) -> (r: Self)
        ensures
            appended_leaf(
                r,
                self,
                BoundsPosition::Contains,
                pattern@,
                is_positive,
                CaseMatchMode::Sensitive,
            ),
    {
        self.contains(pattern, is_positive, false)
    }

    /// Append a positive "contains" rule with a case-insensitivity flag.
    pub fn containing(self, pattern: &str, case_insensitive: bool) -> (r: Self)
        ensures
            appended_leaf(
                r,
                self,
                BoundsPosition::Contains,
                pattern@,
                true,
                case_mode_of(case_insensitive),
            ),
    {
        self.contains(pattern, true, case_insensitive)
    }

    /// Append a positive case-insensitive "contains" rule.
    pub fn containing_ci(self, pattern: &str) -> (r: Self)
        ensures
            appended_leaf(
                r,
                self,
                BoundsPosition::Contains,
                pattern@,
                true,
                CaseMatchMode::Insensitive,
            ),
    {
        self.containing(pattern, true)
    }

    /// Append a positive alphanumeric-insensitive "contains" rule.
    pub fn containing_ci_alphanum(self, pattern: &str) -> (r: Self)
        ensures
            appended_leaf(
                r,
                self,
                BoundsPosition::Contains,
                pattern@,
                true,
                CaseMatchMode::AlphanumInsensitive,
            ),
    {
        self.contains_ci_alphanum(pattern, true)
    }

    /// Append a positive case-sensitive "contains" rule.
    pub fn containing_cs(self, pattern: &str) -> (r: Self)
        ensures
            appended_leaf(
                r,
                self,
                BoundsPosition::Contains,
                pattern@,
                true,
                CaseMatchMode::Sensitive,
            ),
    {
        self.containing(pattern, false)
    }

    /// Append a negative "contains" rule with a case-insensitivity flag.
    pub fn not_containing(self, pattern: &str, case_insensitive: bool) -> (r: Self)
        ensures
            appended_leaf(
                r,
                self,
                BoundsPosition::Contains,
                pattern@,
                false,
                case_mode_of(case_insensitive),
            ),
    {
        self.contains(pattern, false, case_insensitive)
    }

    /// Append a negative case-insensitive "contains" rule.
    pub fn not_containing_ci(self, pattern: &str) -> (r: Self)
        ensures
            appended_leaf(
                r,
                self,
                BoundsPosition::Contains,
                pattern@,
                false,
                CaseMatchMode::Insensitive,
            ),
    {
        self.not_containing(pattern, true)
    }

    /// Append a negative alphanumeric-insensitive "contains" rule.
    pub fn not_containing_ci_alphanum(self, pattern: &str) -> (r: Self)
        ensures
            appended_leaf(
                r,
                self,
                BoundsPosition::Contains,
                pattern@,
                false,
                CaseMatchMode::AlphanumInsensitive,
            ),
    {
        self.contains_ci_alphanum(pattern, false)
    }

    /// Append a negative case-sensitive "contains" rule.
    pub fn not_containing_cs(self, pattern: &str) -> (r: Self)
        ensures
            appended_leaf(
                r,
                self,
                BoundsPosition::Contains,
                pattern@,
                false,
                CaseMatchMode::Sensitive,
            ),
    {
        self.not_containing(pattern, false)
    }

    /// Append an "ends_with" rule with positivity and case-insensitivity
    /// flags.
    fn ends_with(self, pattern: &str, is_positive: bool, case_insensitive: bool) -> (r: Self)
        ensures
            appended_leaf(
                r,
                self,
                BoundsPosition::Ends,
                pattern@,
                is_positive,
                case_mode_of(case_insensitive),
            ),
    {
        self.push_bound(
            BoundsPosition::Ends,
            pattern,
            is_positive,
            CaseMatchMode::insensitive(case_insensitive),
        )
    }

    /// Append an "ends_with" rule with a positivity flag, case-insensitive.
    pub fn ends_with_ci(self, pattern: &str, is_positive: bool) -> (r: Self)
        ensures
            appended_leaf(
                r,
                self,
                BoundsPosition::Ends,
                pattern@,
                is_positive,
                CaseMatchMode::Insensitive,
            ),
    {
        self.ends_with(pattern, is_positive, true)
    }

    /// Append an "ends_with" rule over alphanumeric characters only.
    pub fn ends_with_ci_alphanum(self, pattern: &str, is_positive: bool) -> (r: Self)
        ensures
            appended_leaf(
                r,
                self,
                BoundsPosition::Ends,
                pattern@,
                is_positive,
                CaseMatchMode::AlphanumInsensitive,
            ),
    {
        self.push_bound(
            BoundsPosition::Ends,
            pattern,
            is_positive,
            CaseMatchMode::AlphanumInsensitive,
        )
    }

    /// Append an "ends_with" rule with a positivity flag, case-sensitive.
    pub fn ends_with_cs(self, pattern: &str, is_positive: bool) -> (r: Self)
        ensures
            appended_leaf(
                r,
                self,
                BoundsPosition::Ends,
                pattern@,
                is_positive,
                CaseMatchMode::Sensitive,
            ),
    {
        self.ends_with(pattern, is_positive, false)
    }

    /// Append a positive "ends_with" rule with a case-insensitivity flag.
    pub fn ending_with(self, pattern: &str, case_insensitive: bool) -> (r: Self)
        ensures
            appended_leaf(
                r,
                self,
                BoundsPosition::Ends,
                pattern@,
                true,
                case_mode_of(case_insensitive),
            ),
    {
        self.ends_with(pattern, true, case_insensitive)
    }

    /// Append a positive case-insensitive "ends_with" rule.
    pub fn ending_with_ci(self, pattern: &str) -> (r: Self)
        ensures
            appended_leaf(r, self, BoundsPosition::Ends, pattern@, true, CaseMatchMode::Insensitive),
    {
        self.ending_with(pattern, true)
    }

    /// Append a positive alphanumeric-insensitive "ends_with" rule.
    pub fn ending_with_ci_alphanum(self, pattern: &str) -> (r: Self)
        ensures
            appended_leaf(
                r,
                self,
                BoundsPosition::Ends,
                pattern@,
                true,
                CaseMatchMode::AlphanumInsensitive,
            ),
    {
        self.ends_with_ci_alphanum(pattern, true)
    }

    /// Append a positive case-sensitive "ends_with" rule.
    pub fn ending_with_cs(self, pattern: &str) -> (r: Self)
        ensures
            appended_leaf(r, self, BoundsPosition::Ends, pattern@, true, CaseMatchMode::Sensitive),
    {
        self.ending_with(pattern, false)
    }

    /// Append a negative "ends_with" rule with a case-insensitivity flag.
    pub fn not_ending_with(self, pattern: &str, case_insensitive: bool) -> (r: Self)
        ensures
            appended_leaf(
                r,
                self,
                BoundsPosition::Ends,
                pattern@,
                false,
                case_mode_of(case_insensitive),
            ),
    {
        self.ends_with(pattern, false, case_insensitive)
    }

    /// Append a negative case-insensitive "ends_with" rule.
    pub fn not_ending_with_ci(self, pattern: &str) -> (r: Self)
        ensures
            appended_leaf(
                r,
                self,
                BoundsPosition::Ends,
                pattern@,
                false,
                CaseMatchMode::Insensitive,
            ),
    {
        self.not_ending_with(pattern, true)
    }

    /// Append a negative alphanumeric-insensitive "ends_with" rule.
    pub fn not_ending_with_ci_alphanum(self, pattern: &str) -> (r: Self)
        ensures
            appended_leaf(
                r,
                self,
                BoundsPosition::Ends,
                pattern@,
                false,
                CaseMatchMode::AlphanumInsensitive,
            ),
    {
        self.ends_with_ci_alphanum(pattern, false)
    }

    /// Append a negative case-sensitive "ends_with" rule.
    pub fn not_ending_with_cs(self, pattern: &str) -> (r: Self)
        ensures
            appended_leaf(r, self, BoundsPosition::Ends, pattern@, false, CaseMatchMode::Sensitive),
    {
        self.not_ending_with(pattern, false)
    }

    /// Append a whole-match rule with positivity and case-insensitivity
    /// flags.
    pub fn matches_whole(self, pattern: &str, is_positive: bool, case_insensitive: bool) -> (r:
        Self)
        ensures
            appended_leaf(
                r,
                self,
                BoundsPosition::Whole,
                pattern@,
                is_positive,
                case_mode_of(case_insensitive),
            ),
    {
        self.push_bound(
            BoundsPosition::Whole,
            pattern,
            is_positive,
            CaseMatchMode::insensitive(case_insensitive),
        )
    }

    /// Append a whole-match rule with a positivity flag, case-insensitive.
    pub fn matches_whole_ci(self, pattern: &str, is_positive: bool) -> (r: Self)
        ensures
            appended_leaf(
                r,
                self,
                BoundsPosition::Whole,
                pattern@,
                is_positive,
                CaseMatchMode::Insensitive,
            ),
    {
        self.matches_whole(pattern, is_positive, true)
    }

    /// Append a whole-match rule with a positivity flag, case-sensitive.
    pub fn matches_whole_cs(self, pattern: &str, is_positive: bool) -> (r: Self)
        ensures
            appended_leaf(
                r,
                self,
                BoundsPosition::Whole,
                pattern@,
                is_positive,
                CaseMatchMode::Sensitive,
            ),
    {
        self.matches_whole(pattern, is_positive, false)
    }

    /// Append a positive whole-match rule with a case-insensitivity flag.
    pub fn is(self, pattern: &str, case_insensitive: bool) -> (r: Self)
        ensures
            appended_leaf(
                r,
                self,
                BoundsPosition::Whole,
                pattern@,
                true,
                case_mode_of(case_insensitive),
            ),
    {
        self.matches_whole(pattern, true, case_insensitive)
    }

    /// Append a positive case-insensitive whole-match rule.
    pub fn is_ci(self, pattern: &str) -> (r: Self)
        ensures
            appended_leaf(r, self, BoundsPosition::Whole, pattern@, true, CaseMatchMode::Insensitive),
    {
        self.matches_whole(pattern, true, true)
    }

    /// Append a negative whole-match rule with a case-insensitivity flag.
    pub fn is_not(self, pattern: &str, case_insensitive: bool) -> (r: Self)
        ensures
            appended_leaf(
                r,
                self,
                BoundsPosition::Whole,
                pattern@,
                false,
                case_mode_of(case_insensitive),
            ),
    {
        self.matches_whole(pattern, false, case_insensitive)
    }

    /// Append a negative case-insensitive whole-match rule.
    pub fn is_not_ci(self, pattern: &str) -> (r: Self)
        ensures
            appended_leaf(
                r,
                self,
                BoundsPosition::Whole,
                pattern@,
                false,
                CaseMatchMode::Insensitive,
            ),
    {
        self.matches_whole(pattern, false, true)
    }

    /// Append a negative case-sensitive whole-match rule.
    pub fn is_not_cs(self, pattern: &str) -> (r: Self)
        ensures
            appended_leaf(r, self, BoundsPosition::Whole, pattern@, false, CaseMatchMode::Sensitive),
    {
        self.matches_whole(pattern, false, false)
    }

    /// Append an Or group of positive predicates at one position.
    pub fn or_true(
        self,
        patterns: &Vec<String>,
        case_mode: CaseMatchMode,
        position: BoundsPosition,
    ) -> (r: Self)
        ensures
            appended_or_leaves(r, self, position, pattern_views(patterns@), true, case_mode),
    {
        self.push_or_group(patterns, case_mode, position, true)
    }

    /// Append an Or group of "starts_with" predicates.
    pub fn or_starts_with(self, patterns: &Vec<String>, case_mode: CaseMatchMode) -> (r: Self)
        ensures
            appended_or_leaves(
                r,
                self,
                BoundsPosition::Starts,
                pattern_views(patterns@),
                true,
                case_mode,
            ),
    {
        self.or_true(patterns, case_mode, BoundsPosition::Starts)
    }

    /// Append an Or group of case-insensitive "starts_with" predicates.
    pub fn or_starting_with_ci(self, patterns: &Vec<String>) -> (r: Self)
        ensures
            appended_or_leaves(
                r,
                self,
                BoundsPosition::Starts,
                pattern_views(patterns@),
                true,
                CaseMatchMode::Insensitive,
            ),
    {
        self.or_starts_with(patterns, CaseMatchMode::Insensitive)
    }

    /// Append an Or group of case-sensitive "starts_with" predicates.
    pub fn or_starting_with_cs(self, patterns: &Vec<String>) -> (r: Self)
        ensures
            appended_or_leaves(
                r,
                self,
                BoundsPosition::Starts,
                pattern_views(patterns@),
                true,
                CaseMatchMode::Sensitive,
            ),
    {
        self.or_starts_with(patterns, CaseMatchMode::Sensitive)
    }

    /// Append an Or group of alphanumeric-insensitive "starts_with"
    /// predicates.
    pub fn or_starting_with_ci_alphanum(self, patterns: &Vec<String>) -> (r: Self)
        ensures
            appended_or_leaves(
                r,
                self,
                BoundsPosition::Starts,
                pattern_views(patterns@),
                true,
                CaseMatchMode::AlphanumInsensitive,
            ),
    {
        self.or_starts_with(patterns, CaseMatchMode::AlphanumInsensitive)
    }

    /// Append an Or group of "contains" predicates.
    pub fn or_contains(self, patterns: &Vec<String>, case_mode: CaseMatchMode) -> (r: Self)
        ensures
            appended_or_leaves(
                r,
                self,
                BoundsPosition::Contains,
                pattern_views(patterns@),
                true,
                case_mode,
            ),
    {
        self.or_true(patterns, case_mode, BoundsPosition::Contains)
    }

    /// Append an Or group of case-insensitive "contains" predicates.
    pub fn or_containing_ci(self, patterns: &Vec<String>) -> (r: Self)
        ensures
            appended_or_leaves(
                r,
                self,
                BoundsPosition::Contains,
                pattern_views(patterns@),
                true,
                CaseMatchMode::Insensitive,
            ),
    {
        self.or_contains(patterns, CaseMatchMode::Insensitive)
    }

    /// Append an Or group of case-sensitive "contains" predicates.
    pub fn or_containing_cs(self, patterns: &Vec<String>) -> (r: Self)
        ensures
            appended_or_leaves(
                r,
                self,
                BoundsPosition::Contains,
                pattern_views(patterns@),
                true,
                CaseMatchMode::Sensitive,
            ),
    {
        self.or_contains(patterns, CaseMatchMode::Sensitive)
    }

    /// Append an Or group of alphanumeric-insensitive "contains" predicates.
    pub fn or_containing_ci_alphanum(self, patterns: &Vec<String>) -> (r: Self)
        ensures
            appended_or_leaves(
                r,
                self,
                BoundsPosition::Contains,
                pattern_views(patterns@),
                true,
                CaseMatchMode::AlphanumInsensitive,
            ),
    {
        self.or_contains(patterns, CaseMatchMode::AlphanumInsensitive)
    }

    /// Append an Or group of "ends_with" predicates.
    pub fn or_ends_with(self, patterns: &Vec<String>, case_mode: CaseMatchMode) -> (r: Self)
        ensures
            appended_or_leaves(
                r,
                self,
                BoundsPosition::Ends,
                pattern_views(patterns@),
                true,
                case_mode,
            ),
    {
        self.or_true(patterns, case_mode, BoundsPosition::Ends)
    }

    /// Append an Or group of case-insensitive "ends_with" predicates.
    pub fn or_ending_with_ci(self, patterns: &Vec<String>) -> (r: Self)
        ensures
            appended_or_leaves(
                r,
                self,
                BoundsPosition::Ends,
                pattern_views(patterns@),
                true,
                CaseMatchMode::Insensitive,
            ),
    {
        self.or_ends_with(patterns, CaseMatchMode::Insensitive)
    }

    /// Append an Or group of case-sensitive "ends_with" predicates.
    pub fn or_ending_with_cs(self, patterns: &Vec<String>) -> (r: Self)
        ensures
            appended_or_leaves(
                r,
                self,
                BoundsPosition::Ends,
                pattern_views(patterns@),
                true,
                CaseMatchMode::Sensitive,
            ),
    {
        self.or_ends_with(patterns, CaseMatchMode::Sensitive)
    }

    /// Append an Or group of alphanumeric-insensitive "ends_with"
    /// predicates.
    pub fn or_ending_with_ci_alphanum(self, patterns: &Vec<String>) -> (r: Self)
        ensures
            appended_or_leaves(
                r,
                self,
                BoundsPosition::Ends,
                pattern_views(patterns@),
                true,
                CaseMatchMode::AlphanumInsensitive,
            ),
    {
        self.or_ends_with(patterns, CaseMatchMode::AlphanumInsensitive)
    }

    /// Append an Or group of whole-match predicates.
    pub fn or_is(self, patterns: &Vec<String>, case_mode: CaseMatchMode) -> (r: Self)
        ensures
            appended_or_leaves(
                r,
                self,
                BoundsPosition::Whole,
                pattern_views(patterns@),
                true,
                case_mode,
            ),
    {
        self.or_true(patterns, case_mode, BoundsPosition::Whole)
    }

    /// Append an Or group of case-insensitive whole-match predicates.
    pub fn or_is_ci(self, patterns: &Vec<String>) -> (r: Self)
        ensures
            appended_or_leaves(
                r,
                self,
                BoundsPosition::Whole,
                pattern_views(patterns@),
                true,
                CaseMatchMode::Insensitive,
            ),
    {
        self.or_is(patterns, CaseMatchMode::Insensitive)
    }

    /// Append an Or group of case-sensitive whole-match predicates.
    pub fn or_is_cs(self, patterns: &Vec<String>) -> (r: Self)
        ensures
            appended_or_leaves(
                r,
                self,
                BoundsPosition::Whole,
                pattern_views(patterns@),
                true,
                CaseMatchMode::Sensitive,
            ),
    {
        self.or_is(patterns, CaseMatchMode::Sensitive)
    }

    /// Append an Or group of alphanumeric-insensitive whole-match
    /// predicates.
    pub fn or_is_ci_alphanum(self, patterns: &Vec<String>) -> (r: Self)
        ensures
            appended_or_leaves(
                r,
                self,
                BoundsPosition::Whole,
                pattern_views(patterns@),
                true,
                CaseMatchMode::AlphanumInsensitive,
            ),
    {
        self.or_is(patterns, CaseMatchMode::AlphanumInsensitive)
    }

    /// Append a group of positive predicates at one position, inserted as a
    /// single node.
    pub fn and_true(
        self,
        patterns: &Vec<String>,
        case_mode: CaseMatchMode,
        position: BoundsPosition,
    ) -> (r: Self)
        ensures
            appended_or_leaves(r, self, position, pattern_views(patterns@), true, case_mode),
    {
        self.push_or_group(patterns, case_mode, position, true)
    }

    /// Append a group of negative predicates at one position, inserted as a
    /// single node.
    pub fn and_false(
        self,
        patterns: &Vec<String>,
        case_mode: CaseMatchMode,
        position: BoundsPosition,
    ) -> (r: Self)
        ensures
            appended_or_leaves(r, self, position, pattern_views(patterns@), false, case_mode),
    {
        self.push_or_group(patterns, case_mode, position, false)
    }

    /// Append a group of positive "starts_with" predicates.
    pub fn and_starts_with(self, patterns: &Vec<String>, case_mode: CaseMatchMode) -> (r: Self)
        ensures
            appended_or_leaves(
                r,
                self,
                BoundsPosition::Starts,
                pattern_views(patterns@),
                true,
                case_mode,
            ),
    {
        self.and_true(patterns, case_mode, BoundsPosition::Starts)
    }

    /// Append a group of negative "starts_with" predicates.
    pub fn and_not_starts_with(self, patterns: &Vec<String>, case_mode: CaseMatchMode) -> (r: Self)
        ensures
            appended_or_leaves(
                r,
                self,
                BoundsPosition::Starts,
                pattern_views(patterns@),
                false,
                case_mode,
            ),
    {
        self.and_false(patterns, case_mode, BoundsPosition::Starts)
    }

    /// Append a group of positive case-insensitive "starts_with" predicates.
    pub fn and_starting_with_ci(self, patterns: &Vec<String>) -> (r: Self)
        ensures
            appended_or_leaves(
                r,
                self,
                BoundsPosition::Starts,
                pattern_views(patterns@),
                true,
                CaseMatchMode::Insensitive,
            ),
    {
        self.and_starts_with(patterns, CaseMatchMode::Insensitive)
    }

    /// Append a group of negative case-insensitive "starts_with" predicates.
    pub fn and_not_starts_with_ci(self, patterns: &Vec<String>) -> (r: Self)
        ensures
            appended_or_leaves(
                r,
                self,
                BoundsPosition::Starts,
                pattern_views(patterns@),
                false,
                CaseMatchMode::Insensitive,
            ),
    {
        self.and_not_starts_with(patterns, CaseMatchMode::Insensitive)
    }

    /// Append a group of positive case-sensitive "starts_with" predicates.
    pub fn and_starting_with_cs(self, patterns: &Vec<String>) -> (r: Self)
        ensures
            appended_or_leaves(
                r,
                self,
                BoundsPosition::Starts,
                pattern_views(patterns@),
                true,
                CaseMatchMode::Sensitive,
            ),
    {
        self.and_starts_with(patterns, CaseMatchMode::Sensitive)
    }

    /// Append a group of negative case-sensitive "starts_with" predicates.
    pub fn and_not_starts_with_cs(self, patterns: &Vec<String>) -> (r: Self)
        ensures
            appended_or_leaves(
                r,
                self,
                BoundsPosition::Starts,
                pattern_views(patterns@),
                false,
                CaseMatchMode::Sensitive,
            ),
    {
        self.and_not_starts_with(patterns, CaseMatchMode::Sensitive)
    }

    /// Append a group of positive alphanumeric-insensitive "starts_with"
    /// predicates.
    pub fn and_starting_with_ci_alphanum(self, patterns: &Vec<String>) -> (r: Self)
        ensures
            appended_or_leaves(
                r,
                self,
                BoundsPosition::Starts,
                pattern_views(patterns@),
                true,
                CaseMatchMode::AlphanumInsensitive,
            ),
    {
        self.and_starts_with(patterns, CaseMatchMode::AlphanumInsensitive)
    }

    /// Append a group of negative alphanumeric-insensitive "starts_with"
    /// predicates.
    pub fn and_not_starts_with_ci_alphanum(self, patterns: &Vec<String>) -> (r: Self)
        ensures
            appended_or_leaves(
                r,
                self,
                BoundsPosition::Starts,
                pattern_views(patterns@),
                false,
                CaseMatchMode::AlphanumInsensitive,
            ),
    {
        self.and_not_starts_with(patterns, CaseMatchMode::AlphanumInsensitive)
    }

    /// Append a group of positive "contains" predicates.
    pub fn and_contains(self, patterns: &Vec<String>, case_mode: CaseMatchMode) -> (r: Self)
        ensures
            appended_or_leaves(
                r,
                self,
                BoundsPosition::Contains,
                pattern_views(patterns@),
                true,
                case_mode,
            ),
    {
        self.and_true(patterns, case_mode, BoundsPosition::Contains)
    }

    /// Append a group of negative "contains" predicates.
    pub fn and_not_contains(self, patterns: &Vec<String>, case_mode: CaseMatchMode) -> (r: Self)
        ensures
            appended_or_leaves(
                r,
                self,
                BoundsPosition::Contains,
                pattern_views(patterns@),
                false,
                case_mode,
            ),
    {
        self.and_false(patterns, case_mode, BoundsPosition::Contains)
    }

    /// Append a group of positive case-insensitive "contains" predicates.
    pub fn and_containing_ci(self, patterns: &Vec<String>) -> (r: Self)
        ensures
            appended_or_leaves(
                r,
                self,
                BoundsPosition::Contains,
                pattern_views(patterns@),
                true,
                CaseMatchMode::Insensitive,
            ),
    {
        self.and_contains(patterns, CaseMatchMode::Insensitive)
    }

    /// Append a group of negative case-insensitive "contains" predicates.
    pub fn and_not_containing_ci(self, patterns: &Vec<String>) -> (r: Self)
        ensures
            appended_or_leaves(
                r,
                self,
                BoundsPosition::Contains,
                pattern_views(patterns@),
                false,
                CaseMatchMode::Insensitive,
            ),
    {
        self.and_not_contains(patterns, CaseMatchMode::Insensitive)
    }

    /// Append a group of positive case-sensitive "contains" predicates.
    pub fn and_containing_cs(self, patterns: &Vec<String>) -> (r: Self)
        ensures
            appended_or_leaves(
                r,
                self,
                BoundsPosition::Contains,
                pattern_views(patterns@),
                true,
                CaseMatchMode::Sensitive,
            ),
    {
        self.and_contains(patterns, CaseMatchMode::Sensitive)
    }

    /// Append a group of negative case-sensitive "contains" predicates.
    pub fn and_not_containing_cs(self, patterns: &Vec<String>) -> (r: Self)
        ensures
            appended_or_leaves(
                r,
                self,
                BoundsPosition::Contains,
                pattern_views(patterns@),
                false,
                CaseMatchMode::Sensitive,
            ),
    {
        self.and_not_contains(patterns, CaseMatchMode::Sensitive)
    }

    /// Append a group of positive alphanumeric-insensitive "contains"
    /// predicates.
    pub fn and_containing_ci_alphanum(self, patterns: &Vec<String>) -> (r: Self)
        ensures
            appended_or_leaves(
                r,
                self,
                BoundsPosition::Contains,
                pattern_views(patterns@),
                true,
                CaseMatchMode::AlphanumInsensitive,
            ),
    {
        self.and_contains(patterns, CaseMatchMode::AlphanumInsensitive)
    }

    /// Append a group of negative alphanumeric-insensitive "contains"
    /// predicates.
    pub fn and_not_containing_ci_alphanum(self, patterns: &Vec<String>) -> (r: Self)
        ensures
            appended_or_leaves(
                r,
                self,
                BoundsPosition::Contains,
                pattern_views(patterns@),
                false,
                CaseMatchMode::AlphanumInsensitive,
            ),
    {
        self.and_not_contains(patterns, CaseMatchMode::AlphanumInsensitive)
    }

    /// Append a group of positive "ends_with" predicates.
    pub fn and_ends_with(self, patterns: &Vec<String>, case_mode: CaseMatchMode) -> (r: Self)
        ensures
            appended_or_leaves(
                r,
                self,
                BoundsPosition::Ends,
                pattern_views(patterns@),
                true,
                case_mode,
            ),
    {
        self.and_true(patterns, case_mode, BoundsPosition::Ends)
    }

    /// Append a group of negative "ends_with" predicates.
    pub fn and_not_ends_with(self, patterns: &Vec<String>, case_mode: CaseMatchMode) -> (r: Self)
        ensures
            appended_or_leaves(
                r,
                self,
                BoundsPosition::Ends,
                pattern_views(patterns@),
                false,
                case_mode,
            ),
    {
        self.and_false(patterns, case_mode, BoundsPosition::Ends)
    }

    /// Append a group of positive case-insensitive "ends_with" predicates.
    pub fn and_ending_with_ci(self, patterns: &Vec<String>) -> (r: Self)
        ensures
            appended_or_leaves(
                r,
                self,
                BoundsPosition::Ends,
                pattern_views(patterns@),
                true,
                CaseMatchMode::Insensitive,
            ),
    {
        self.and_ends_with(patterns, CaseMatchMode::Insensitive)
    }

    /// Append a group of negative case-insensitive "ends_with" predicates.
    pub fn and_not_ending_with_ci(self, patterns: &Vec<String>) -> (r: Self)
        ensures
            appended_or_leaves(
                r,
                self,
                BoundsPosition::Ends,
                pattern_views(patterns@),
                false,
                CaseMatchMode::Insensitive,
            ),
    {
        self.and_not_ends_with(patterns, CaseMatchMode::Insensitive)
    }

    /// Append a group of positive case-sensitive "ends_with" predicates.
    pub fn and_ending_with_cs(self, patterns: &Vec<String>) -> (r: Self)
        ensures
            appended_or_leaves(
                r,
                self,
                BoundsPosition::Ends,
                pattern_views(patterns@),
                true,
                CaseMatchMode::Sensitive,
            ),
    {
        self.and_ends_with(patterns, CaseMatchMode::Sensitive)
    }

    /// Append a group of negative case-sensitive "ends_with" predicates.
    pub fn and_not_ending_with_cs(self, patterns: &Vec<String>) -> (r: Self)
        ensures
            appended_or_leaves(
                r,
                self,
                BoundsPosition::Ends,
                pattern_views(patterns@),
                false,
                CaseMatchMode::Sensitive,
            ),
    {
        self.and_not_ends_with(patterns, CaseMatchMode::Sensitive)
    }

    /// Append a group of positive alphanumeric-insensitive "ends_with"
    /// predicates.
    pub fn and_ending_with_ci_alphanum(self, patterns: &Vec<String>) -> (r: Self)
        ensures
            appended_or_leaves(
                r,
                self,
                BoundsPosition::Ends,
                pattern_views(patterns@),
                true,
                CaseMatchMode::AlphanumInsensitive,
            ),
    {
        self.and_ends_with(patterns, CaseMatchMode::AlphanumInsensitive)
    }

    /// Append a group of negative alphanumeric-insensitive "ends_with"
    /// predicates.
    pub fn and_not_ending_with_ci_alphanum(self, patterns: &Vec<String>) -> (r: Self)
        ensures
            appended_or_leaves(
                r,
                self,
                BoundsPosition::Ends,
                pattern_views(patterns@),
                false,
                CaseMatchMode::AlphanumInsensitive,
            ),
    {
        self.and_not_ends_with(patterns, CaseMatchMode::AlphanumInsensitive)
    }

    /// Append a group of positive whole-match predicates.
    pub fn and_is(self, patterns: &Vec<String>, case_mode: CaseMatchMode) -> (r: Self)
        ensures
            appended_or_leaves(
                r,
                self,
                BoundsPosition::Whole,
                pattern_views(patterns@),
                true,
                case_mode,
            ),
    {
        self.and_true(patterns, case_mode, BoundsPosition::Whole)
    }

    /// Append a group of negative whole-match predicates.
    pub fn and_is_not(self, patterns: &Vec<String>, case_mode: CaseMatchMode) -> (r: Self)
        ensures
            appended_or_leaves(
                r,
                self,
                BoundsPosition::Whole,
                pattern_views(patterns@),
                false,
                case_mode,
            ),
    {
        self.and_false(patterns, case_mode, BoundsPosition::Whole)
    }

    /// Append a group of positive case-insensitive whole-match predicates.
    pub fn and_is_ci(self, patterns: &Vec<String>) -> (r: Self)
        ensures
            appended_or_leaves(
                r,
                self,
                BoundsPosition::Whole,
                pattern_views(patterns@),
                true,
                CaseMatchMode::Insensitive,
            ),
    {
        self.and_is(patterns, CaseMatchMode::Insensitive)
    }

    /// Append a group of negative case-insensitive whole-match predicates.
    pub fn and_is_not_ci(self, patterns: &Vec<String>) -> (r: Self)
        ensures
            appended_or_leaves(
                r,
                self,
                BoundsPosition::Whole,
                pattern_views(patterns@),
                false,
                CaseMatchMode::Insensitive,
            ),
    {
        self.and_is_not(patterns, CaseMatchMode::Insensitive)
    }

    /// Append a group of positive case-sensitive whole-match predicates.
    pub fn and_is_cs(self, patterns: &Vec<String>) -> (r: Self)
        ensures
            appended_or_leaves(
                r,
                self,
                BoundsPosition::Whole,
                pattern_views(patterns@),
                true,
                CaseMatchMode::Sensitive,
            ),
    {
        self.and_is(patterns, CaseMatchMode::Sensitive)
    }

    /// Append a group of negative case-sensitive whole-match predicates.
    pub fn and_is_not_cs(self, patterns: &Vec<String>) -> (r: Self)
        ensures
            appended_or_leaves(
                r,
                self,
                BoundsPosition::Whole,
                pattern_views(patterns@),
                false,
                CaseMatchMode::Sensitive,
            ),
    {
        self.and_is_not(patterns, CaseMatchMode::Sensitive)
    }

    /// Append a group of positive alphanumeric-insensitive whole-match
    /// predicates.
    pub fn and_is_ci_alphanum(self, patterns: &Vec<String>) -> (r: Self)
        ensures
            appended_or_leaves(
                r,
                self,
                BoundsPosition::Whole,
                pattern_views(patterns@),
                true,
                CaseMatchMode::AlphanumInsensitive,
            ),
    {
        self.and_is(patterns, CaseMatchMode::AlphanumInsensitive)
    }

    /// Append a group of negative alphanumeric-insensitive whole-match
    /// predicates.
    pub fn and_is_not_ci_alphanum(self, patterns: &Vec<String>) -> (r: Self)
        ensures
            appended_or_leaves(
                r,
                self,
                BoundsPosition::Whole,
                pattern_views(patterns@),
                false,
                CaseMatchMode::AlphanumInsensitive,
            ),
    {
        self.and_is_not(patterns, CaseMatchMode::AlphanumInsensitive)
    }
}

/// Start a new, empty rule-set builder for chained construction.
pub fn bounds_builder() -> (r: BoundsBuilder)
    ensures
        r.rules().len() == 0,
{
    BoundsBuilder::new()
}

} // verus!
