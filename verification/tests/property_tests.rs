use simple_string_patterns::{
    bounds_builder, contains_any_conditional_ci, contains_ci, contains_type,
    correct_numeric_string, ends_with_type, equals_ci, equals_ci_alphanum, escape_in_str,
    filter_all_conditional, find_matched_indices, has_digits_radix, is_numeric,
    match_all_conditional, match_any_conditional, match_bounds_rule_set, parse_integer,
    split_to_numbers, starts_with_ci, starts_with_type, strip_non_digits, strip_spaces,
    to_first_number, to_head_tail_on_any_char, to_numbers, to_numbers_euro, to_numeric_strings,
    to_parts, to_segment, to_start_end_on_any_char, to_strings, to_tail, CaseMatchMode,
    CharType, StringBounds,
};

// Every candidate a scan yields, on inputs whose candidates do not mix a
// late dot with commas, passes the strict numeric validator.
#[test]
fn test_scanned_tokens_are_strict_numeric() {
    let samples = vec![
        "I spent £9999.99 on 2 motorbikes at the age of 72.",
        "Il conto è del 1.999,50€. Come vuole pagare?",
        "Il furgone pesa 1.500kg",
        "5-3 plus -2.5 and 1,234,567",
        "ends with separator 12.",
    ];
    for sample in samples {
        for token in to_numeric_strings(sample) {
            assert!(is_numeric(&token));
        }
    }
    // a candidate with a dot after its last comma is the documented
    // exception: the normalised form keeps more than one dot
    assert_eq!(to_numeric_strings("1.2,3.4"), to_strings(&vec!["12.3.4"]));
    assert!(!is_numeric("12.3.4"));
}

// Re-normalising an already-normalised numeric string returns it unchanged.
#[test]
fn test_idempotent_normalisation() {
    for normalised in vec!["-1227.75", "42", "0.5", "1500", "-7"] {
        assert_eq!(correct_numeric_string(normalised, false), normalised.to_string());
    }
}

// The two disambiguation directions around a mixed-separator number.
#[test]
fn test_disambiguation_branches() {
    // comma before the single dot: the comma is a thousands separator
    assert_eq!(correct_numeric_string("-1,227.75", false), "-1227.75".to_string());
    assert!(is_numeric(&correct_numeric_string("-1,227.75", false)));
    // forced comma-as-decimal: dots removed, the comma becomes the point
    assert_eq!(correct_numeric_string("-1.227,75", true), "-1227.75".to_string());
}

#[test]
fn test_scan_extracts_each_number() {
    let tokens = to_numeric_strings("I spent £9999.99 on 2 motorbikes at the age of 72.");
    assert_eq!(tokens, to_strings(&vec!["9999.99", "2", "72"]));
}

#[test]
fn test_first_number_forced_euro() {
    assert_eq!(simple_string_patterns::to_first_number_euro("Il furgone pesa 1.500kg"), Some(1500));
}

// A positive starts-with rule and a negative ends-with rule in one And set.
#[test]
fn test_positive_and_negative_rules() {
    let conditions = vec![
        StringBounds::StartsWith("cat".to_string(), true, CaseMatchMode::Insensitive),
        StringBounds::EndsWith("video".to_string(), false, CaseMatchMode::Insensitive),
    ];
    assert_eq!(match_all_conditional("CAT_Video", &conditions), false);
    assert!(match_all_conditional("Cat image", &conditions));
}

// An empty And list evaluates true; an empty Or list evaluates false.
#[test]
fn test_vacuous_rule_lists() {
    let no_rules: Vec<StringBounds> = Vec::new();
    assert!(match_all_conditional("anything", &no_rules));
    assert_eq!(match_any_conditional("anything", &no_rules), false);
    assert!(match_bounds_rule_set("anything", &StringBounds::And(Vec::new())));
    assert_eq!(match_bounds_rule_set("anything", &StringBounds::Or(Vec::new())), false);
}

// Filtering keeps exactly the matching strings in their original order.
#[test]
fn test_filter_all_keeps_order() {
    let source_strs = to_strings(&vec!["Cat image", "dog picture", "CAT_Video", "cat Picture"]);
    let conditions = bounds_builder()
        .starting_with_ci("cat")
        .not_containing_ci("video")
        .as_vec();
    let expected = to_strings(&vec!["Cat image", "cat Picture"]);
    assert_eq!(filter_all_conditional(&source_strs, &conditions), expected);
}

// The integer caster returns a value exactly for in-range integer literals.
#[test]
fn test_parse_integer_bounds() {
    assert_eq!(parse_integer("123"), Some(123));
    assert_eq!(parse_integer("-123"), Some(-123));
    assert_eq!(parse_integer("0"), Some(0));
    assert_eq!(parse_integer("9223372036854775807"), Some(i64::MAX));
    assert_eq!(parse_integer("-9223372036854775808"), Some(i64::MIN));
    assert_eq!(parse_integer("9223372036854775808"), None);
    assert_eq!(parse_integer("-9223372036854775809"), None);
    assert_eq!(parse_integer("12.5"), None);
    assert_eq!(parse_integer(""), None);
    assert_eq!(parse_integer("-"), None);
    assert_eq!(parse_integer("cats"), None);
}

#[test]
fn test_integer_extraction() {
    assert_eq!(to_numbers("I have 3 cats and -2 dogs"), vec![3, -2]);
    assert_eq!(to_numbers_euro("1.500 apples and 2 pears"), vec![1500, 2]);
    assert_eq!(to_first_number("no numbers here"), None);
    assert_eq!(to_first_number("first 7 then 9"), Some(7));
    assert_eq!(split_to_numbers("4;5;6", ";"), vec![4, 5, 6]);
}

#[test]
fn test_case_insensitive_matches() {
    assert!(equals_ci("HELLO", "hello"));
    assert!(!equals_ci("HELLO", "help"));
    assert!(equals_ci_alphanum("H-E_L.L O", "hello"));
    assert!(starts_with_ci("Hello World", "hELLo"));
    assert!(contains_ci("The QUICK fox", "quick"));
    let yes_words = to_strings(&vec!["yes", "ok"]);
    assert!(contains_any_conditional_ci("they said OK!", &yes_words));
    assert_eq!(contains_any_conditional_ci("silence", &yes_words), false);
}

#[test]
fn test_character_classes() {
    assert!(contains_type("abc5", CharType::Numeric));
    assert_eq!(contains_type("abc", CharType::Numeric), false);
    assert!(starts_with_type("42nd street", CharType::DecDigit));
    assert!(ends_with_type("route 66", CharType::DecDigit));
    assert!(has_digits_radix("ff", 16));
    assert_eq!(has_digits_radix("gg", 16), false);
    assert_eq!(strip_spaces("a b\tc"), "abc".to_string());
    assert_eq!(strip_non_digits("tel: +44 1234"), "441234".to_string());
}

#[test]
fn test_segment_edge_cases() {
    // absent separators: defined fallbacks rather than failures
    assert_eq!(
        simple_string_patterns::to_head_tail("no-separator", ","),
        ("".to_string(), "no-separator".to_string())
    );
    assert_eq!(to_tail("no-separator", ","), "".to_string());
    // repeated separators yield empty parts but no empty segments
    assert_eq!(to_parts("a,,b", ","), to_strings(&vec!["a", "", "b"]));
    assert_eq!(simple_string_patterns::to_segments("a,,b", ","), to_strings(&vec!["a", "b"]));
    // negative indices count from the end; out-of-range selects nothing
    assert_eq!(to_segment("a/b/c", "/", -1), Some("c".to_string()));
    assert_eq!(to_segment("a/b/c", "/", 5), None);
    assert_eq!(to_segment("a/b/c", "/", -5), None);
}

#[test]
fn test_split_on_first_matching_char() {
    let seps = vec![',', '-'];
    assert_eq!(
        to_head_tail_on_any_char("one-two,three", &seps),
        ("one-two".to_string(), "three".to_string())
    );
    assert_eq!(
        to_start_end_on_any_char("one-two,three", &seps),
        ("one-two".to_string(), "three".to_string())
    );
    assert_eq!(
        to_head_tail_on_any_char("plain", &seps),
        ("".to_string(), "plain".to_string())
    );
    assert_eq!(
        to_start_end_on_any_char("plain", &seps),
        ("plain".to_string(), "".to_string())
    );
}

#[test]
fn test_escape_behaviour() {
    // the first character is never escaped, nor pre-escaped occurrences
    assert_eq!(escape_in_str("\"a\"", '"', '\\'), "\"a\\\"".to_string());
    assert_eq!(escape_in_str("a\\\"b", '"', '\\'), "a\\\"b".to_string());
    assert_eq!(simple_string_patterns::enclose_safe("say \"hi\"", '<', '"'), "<say \\\"hi\\\"\"".to_string());
}

#[test]
fn test_remainders_ignore_outer_separators() {
    // one leading separator is ignored before taking the remainder
    assert_eq!(
        simple_string_patterns::to_remainder_end("/a/b/c", "/"),
        "b/c".to_string()
    );
    assert_eq!(simple_string_patterns::to_remainder_end("a/b/c", "/"), "b/c".to_string());
    // one trailing separator is ignored before taking the beginning
    assert_eq!(
        simple_string_patterns::to_remainder_start("a/b/c/", "/"),
        "a/b".to_string()
    );
    assert_eq!(simple_string_patterns::to_remainder_start("a/b/c", "/"), "a/b".to_string());
    assert_eq!(simple_string_patterns::to_start("a/b/c", "/"), "a/b".to_string());
}

#[test]
fn test_match_indices_do_not_overlap() {
    assert_eq!(find_matched_indices("aaa", "aa"), vec![0]);
    assert_eq!(find_matched_indices("aaaa", "aa"), vec![0, 2]);
    assert_eq!(find_matched_indices("abc", "z"), Vec::<usize>::new());
}
