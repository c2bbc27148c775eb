//! Composable string-inspection and string-extraction primitives:
//! character-class filtering, segment splitting, boundary matching with case
//! modes, numeric-token extraction with locale-ambiguous separator
//! resolution, and bracket/quote enclosing with escape-aware re-entry
//! safety.
//!
//! Many functions come in case-sensitive and case-insensitive variants
//! (`_cs` and `_ci` suffixes), with `_ci_alphanum` variants that also strip
//! non-alphanumeric characters from the sample before comparing.

pub mod alphanumeric;
pub mod bounds_builder;
pub mod char_type;
pub mod chars;
pub mod enclose;
pub mod enums;
pub mod segments;
pub mod simple_match;
pub mod to_strings;

pub use crate::alphanumeric::{
    correct_numeric_string, has_alphabetic, has_alphanumeric, has_digits, has_digits_radix,
    is_digits_only, is_digits_only_radix, is_numeric, parse_integer, split_to_numbers,
    strip_non_alphanum, strip_non_digits, strip_non_numeric, to_first_number,
    to_first_number_euro, to_numbers, to_numbers_conditional, to_numbers_euro,
    to_numeric_strings, to_numeric_strings_conditional, to_numeric_strings_euro,
};
pub use crate::bounds_builder::{bounds_builder, BoundsBuilder};
pub use crate::char_type::{
    contains_type, contains_types, ends_with_type, ends_with_types, filter_by_type,
    filter_by_types, starts_with_type, starts_with_types, strip_by_type, strip_by_types,
    strip_spaces, CharType,
};
pub use crate::enclose::{
    double_quotes, double_quotes_safe, enclose, enclose_escaped, enclose_in_chars, enclose_safe,
    escape_in_str, in_parentheses, parenthesize, parenthesize_safe, single_quotes,
    single_quotes_safe, wrap, wrap_escaped, wrap_safe,
};
pub use crate::enums::{BoundsPosition, CaseMatchMode, StringBounds};
pub use crate::segments::{
    extract_string_element_by_index, split_on_any_char, to_end, to_first, to_head, to_head_tail,
    to_head_tail_on_any_char, to_inner_segment, to_last, to_part, to_parts, to_remainder_end,
    to_remainder_start, to_segment, to_segments, to_start, to_start_end,
    to_start_end_on_any_char, to_tail,
};
pub use crate::simple_match::{
    contains_all_conditional, contains_all_conditional_ci, contains_all_conditional_cs,
    contains_any_conditional, contains_any_conditional_ci, contains_any_conditional_cs,
    contains_ci, contains_ci_alphanum, contains_conditional, contains_conditional_ci,
    contains_conditional_cs, ends_with_ci, ends_with_ci_alphanum, equals_ci, equals_ci_alphanum,
    filter_all_conditional, filter_all_rules, filter_any_conditional, filter_any_rules,
    find_char_indices, find_matched_indices, match_all_conditional, match_any_conditional,
    match_bounds_rule_set, matched_conditional, starts_with_ci, starts_with_ci_alphanum,
};
pub use crate::to_strings::to_strings;
