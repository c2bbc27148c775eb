use simple_string_patterns::{
    bounds_builder, contains_all_conditional_ci, contains_ci_alphanum, correct_numeric_string,
    ends_with_ci, enclose, filter_all_conditional, filter_all_rules, filter_any_conditional,
    filter_any_rules, find_matched_indices, has_alphabetic, has_alphanumeric, has_digits,
    in_parentheses, is_digits_only, is_digits_only_radix, is_numeric, match_all_conditional,
    matched_conditional, parenthesize, single_quotes_safe, split_on_any_char,
    starts_with_ci_alphanum, strip_by_type, strip_by_types, strip_non_alphanum,
    strip_non_numeric, to_end, to_first, to_first_number_euro, to_head, to_head_tail,
    to_inner_segment, to_last, to_numeric_strings, to_numeric_strings_euro, to_part, to_parts,
    to_segment, to_segments, to_start_end, to_strings, wrap, wrap_escaped, CaseMatchMode,
    CharType, StringBounds,
};

#[test]
fn test_simple_filter_all() {
    let source_strs = to_strings(&vec![
        "Cat image",
        "dog picture",
        "elephant image",
        "CAT_Video",
        "cat Picture",
    ]);
    let target_strs = to_strings(&vec!["Cat image", "cat Picture"]);

    let conditions = bounds_builder()
        .starting_with_ci("cat")
        .not_containing_ci("video")
        .as_vec();
    assert_eq!(filter_all_conditional(&source_strs, &conditions), target_strs);
}

#[test]
fn test_nested_rules_with_filter_all() {
    let source_strs = to_strings(&vec![
        "_Cat image.jpg",
        "-dog picture.png",
        "_DOG pc.jpg",
        "elephant image.psd",
        "CAT_Video.mp4",
        "lion Picture.jpg",
    ]);
    let target_strs = to_strings(&vec!["_Cat image.jpg", "_DOG pc.jpg"]);
    let patterns = to_strings(&vec!["cat", "dog"]);
    let conditions = bounds_builder()
        .or_starting_with_ci_alphanum(&patterns)
        .ending_with_ci(".jpg");
    assert_eq!(filter_all_rules(&source_strs, &conditions), target_strs);
}

#[test]
fn test_nested_rules_with_filter_any() {
    let source_strs = to_strings(&vec![
        "_Cat image.jpg",
        "-dog picture.png",
        "_DOG pc.jpg",
        "elephant image.psd",
        "CAT_Video.mp4",
        "lion Picture.jpg",
    ]);
    let target_strs = to_strings(&vec!["_Cat image.jpg", "elephant image.psd"]);
    let conditions = bounds_builder()
        .and(
            bounds_builder()
                .starting_with_ci_alphanum("cat")
                .ending_with_ci(".jpg"),
        )
        .ending_with_ci(".psd");
    assert_eq!(filter_any_rules(&source_strs, &conditions), target_strs);
}

#[test]
fn test_strip_non_chars() {
    let source_str = "Cañon, Zürich, Москва".to_string();
    let target_str = "CañonZürichМосква".to_string();
    assert_eq!(strip_non_alphanum(&source_str), target_str);
}

#[test]
fn test_segment_match() {
    let path_string = "/var/www/mysite.com/web/uploads";
    // ignore leading slash
    let domain = to_segment(path_string, "/", 2).unwrap_or("".to_string());
    let expected_string_1 = "mysite.com".to_string();
    assert_eq!(domain, expected_string_1);
    let part = to_part(path_string, "/", 2).unwrap_or("".to_string());
    let expected_string_2 = "www".to_string();
    assert_eq!(part, expected_string_2);
}

#[test]
fn test_to_string_vector() {
    // ignore leading slash
    let path_string = "/var/www/mysite.com/web/uploads";
    let segments = to_segments(path_string, "/");
    assert_eq!(segments.len(), 5);
    let fourth_element = segments.get(3).unwrap().to_owned();
    let expected_string = "web".to_owned();
    assert_eq!(fourth_element, expected_string);
}

#[test]
fn test_to_segments() {
    let path_string = "/var/www/mysite.com/web/uploads/";
    // should extract only non-empty segments
    let segments = to_segments(path_string, "/");
    let expected_segments = to_strings(&vec!["var", "www", "mysite.com", "web", "uploads"]);
    assert_eq!(segments, expected_segments);
    // convert all parts split by a separator whether empty or not
    let parts = to_parts(path_string, "/");
    let expected_parts = to_strings(&vec!["", "var", "www", "mysite.com", "web", "uploads", ""]);
    assert_eq!(parts, expected_parts);
}

#[test]
fn test_to_tail() {
    let source_str = "long/path/with-a-long-title/details";
    let target_str = "long".to_string();
    let groups = vec![("/".to_string(), 2), ("-".to_string(), 2)];
    assert_eq!(to_inner_segment(source_str, &groups), Some(target_str));
}

#[test]
fn test_to_inner_segment() {
    let source_str = "long/path/with-a-long-title/details";
    let target_str = "long".to_string();
    let groups = vec![("/".to_string(), 2), ("-".to_string(), 2)];
    assert_eq!(to_inner_segment(source_str, &groups), Some(target_str));
    let source_str2 = "complex/pattern/with-many-nested|embedded-words";
    let target_str2 = "embedded".to_string();
    let pairs = vec![("/".to_string(), 2), ("-".to_string(), 2), ("|".to_string(), 1)];
    assert_eq!(to_inner_segment(source_str2, &pairs), Some(target_str2));

    let groups = vec![("/".to_string(), 1), ("-".to_string(), 2)];
    let file_path = "pictures/holiday-france-1983/originals";
    let current_year: i32 = 2024;
    let invalid_age: i32 = 0;
    let expected_age: i32 = 41;
    let matched_year = if let Some(year_string) = to_inner_segment(file_path, &groups) {
        year_string.parse::<i32>().unwrap_or(invalid_age)
    } else {
        invalid_age
    };  // should yield 1983
    assert_eq!(current_year - matched_year, expected_age);
}

#[test]
fn test_to_first() {
    let source_str = "/path/with/a/leading/slash";
    let target_str = "path".to_string();
    assert_eq!(to_first(source_str, "/"), target_str);
    let source_str2 = "path/without/a/leading/slash";
    assert_eq!(to_first(source_str2, "/"), target_str);
}

#[test]
fn test_to_last() {
    let source_str = "/path/with/a/trailing/slash/";
    let target_str = "slash".to_string();
    assert_eq!(to_last(source_str, "/"), target_str);
    let source_str2 = "/path/without/a/trailing/slash";
    assert_eq!(to_last(source_str2, "/"), target_str);
}

#[test]
fn test_to_head_tail() {
    let source_str = "comma,separated,string";
    let start = "comma";
    let end = "separated,string";
    assert_eq!(to_head_tail(source_str, ","), (start.to_string(), end.to_string()));
    let head = to_head(source_str, ",");
    assert_eq!(head, start.to_string());

    let end_part = to_end(source_str, ",");
    assert_eq!(end_part, "string".to_string());
}

#[test]
fn test_to_start_end() {
    let source_str = "comma,separated,string";
    let start = "comma,separated".to_string();
    let end = "string".to_string();
    assert_eq!(to_start_end(source_str, ","), (start, end));
    let source_str = "one-item".to_string();
    let empty_end = "".to_string();
    assert_eq!(to_start_end(&source_str, ","), (source_str, empty_end));
}

#[test]
fn test_array_str_to_vec_string() {
    let source_strs = to_strings(&vec!["one", "two", "three"]);
    let target_vec = to_strings(&vec!["one", "two", "three"]);
    assert_eq!(source_strs, target_vec);
}

#[test]
fn test_char_group_matches() {
    let str1 = "I spent £12.50 on wine".to_string();

    assert!(has_alphabetic(&str1));

    assert!(has_digits(&str1));
    let str2 = "I bought a bottle of champagne for twenty pounds".to_string();
    // Does not contain digits
    assert!(has_digits(&str2) == false);

    let str3 = "{-; _)(:-)}".to_string();
    // Does not contain letters or numbers
    assert!(has_alphanumeric(&str3) == false);
}

#[test]
fn test_simple_pattern_matches() {
    let str1 = "Picture_of my cat-2018.PNG";

    let pattern_1 = "pictureof";
    assert!(starts_with_ci_alphanum(str1, pattern_1));

    let pattern_2 = "mycat";
    assert!(contains_ci_alphanum(str1, pattern_2));

    // Ends with .png with upper, lower or mixed case letters
    assert!(ends_with_ci(str1, ".png"));
}

#[test]
fn test_is_numeric() {
    let num_str_1 = "-1227.75";
    assert!(is_numeric(num_str_1));

    let num_str_2 = "-1,227.75";  // will not validate with commas, unless corrected
    assert_eq!(is_numeric(num_str_2), false);
    assert!(is_numeric(&correct_numeric_string(num_str_2, false)));

    let num_str_3 = "-1.227,75";  // European-style with commas as decimal separators
    assert!(is_numeric(&correct_numeric_string(num_str_3, true)));

    let num_str_4 = "$19.99 each";  // Should fail, as this will not parse directly to a float
    assert!(!is_numeric(num_str_4));
}

#[test]
fn test_has_digits() {
    // Does this have a valid decimal digit sequence that may be extracted as a valid number
    let num_str_1 = "serial number: 93025371";
    assert!(has_digits(num_str_1));

    // Is this a valid decimal digit sequence that may be cast to an integer
    let num_str_1 = "93025371";
    assert!(is_digits_only(num_str_1));

    // Is this a valid hexadecimal string that may be cast to a float via from_str_radix(16)
    let num_str_2 = "1ec9F9a";
    assert!(is_digits_only_radix(num_str_2, 16));
}

#[test]
fn test_match_ocurrences() {
    // As this works on literal strs/Strings only it may only match a set number of characters
    let sample = "The fox jumped out of the box into the mixing bowl.";

    let x_indices = find_matched_indices(sample, "x");
    let expected_x_indices: Vec<usize> = vec![6, 28, 41];
    assert_eq!(x_indices, expected_x_indices);

    let ox_indices = find_matched_indices(sample, "ox");
    let expected_ox_indices: Vec<usize> = vec![5, 27];
    assert_eq!(ox_indices, expected_ox_indices);
}

#[test]
fn test_strip_non_numeric() {
    let source_str = "I spent £9999.99 on 2 motorbikes at the age of 72.";
    let target_str = "9999.99 2 72".to_string();
    assert_eq!(strip_non_numeric(source_str), target_str);

    let target_str = "Ispent999999on2motorbikesattheageof72".to_string();
    assert_eq!(strip_non_alphanum(source_str), target_str);
    // check if the above numbers parse successfully to numbers
    let numbers: Vec<f64> = to_numeric_strings(source_str)
        .iter()
        .filter_map(|ns| ns.parse::<f64>().ok())
        .collect();
    assert_eq!(numbers, vec![9999.99f64, 2f64, 72f64]);

    let first_number: f32 = to_numeric_strings(source_str)
        .first()
        .and_then(|ns| ns.parse::<f32>().ok())
        .unwrap_or(0f32);
    assert_eq!(first_number, 9999.99f32);

    let input_text = "I'd like 2.5lb of flour please";
    let first_number: f32 = to_numeric_strings(input_text)
        .first()
        .and_then(|ns| ns.parse::<f32>().ok())
        .unwrap_or(0f32);
    assert_eq!(first_number, 2.5f32);

    // Standard European price format. This is not ambiguous because both a dot and comma are present
    let input_text = "Il conto è del 1.999,50€. Come vuole pagare?";
    let first_number: f32 = to_numeric_strings(input_text)
        .first()
        .and_then(|ns| ns.parse::<f32>().ok())
        .unwrap_or(0f32);
    assert_eq!(first_number, 1999.5f32);

    // Rounded amount in the European format. The absence of a secondary separator
    // makes this value ambiguous
    let input_text = "Il furgone pesa 1.500kg";
    assert_eq!(to_first_number_euro(input_text).unwrap_or(0), 1500);
}

#[test]
fn test_correct_floats() {
    let source_str = "Ho pagato 15,00€ per l'ingresso.".to_string();
    // with numbers that can be corrected, parsed and cast to floats
    let target_str = "Ho pagato 15.00€ per l'ingresso.".to_string();
    // Correct a euro-style number and always interpret commas as decimal separators.
    assert_eq!(correct_numeric_string(&source_str, true), target_str);

    let source_str_2 = "Pesa 1.678 grammi".to_string();
    let target_str_2 = "Pesa 1678 grammi".to_string();
    assert_eq!(correct_numeric_string(&source_str_2, true), target_str_2);

    let sample_str = "Ho pagato 12,50€ per 1.500 grammi di sale.".to_string();
    // with numbers that can be corrected, parsed and cast to floats
    let target_numbers = vec![12.5f32, 1500f32];
    // Correct euro-style numbers and convert to 32-bit floats
    let numbers: Vec<f32> = to_numeric_strings_euro(&sample_str)
        .iter()
        .filter_map(|ns| ns.parse::<f32>().ok())
        .collect();
    assert_eq!(numbers, target_numbers);
}

#[test]
fn test_matched_conditional() {
    let conditions = vec![
        StringBounds::StartsWith("jan".to_string(), true, CaseMatchMode::Insensitive),
        StringBounds::EndsWith("images".to_string(), true, CaseMatchMode::Insensitive),
        StringBounds::Contains("2023".to_string(), true, CaseMatchMode::Insensitive),
    ];

    let folder_1 = "Jan_2023_IMAGES";

    let folder_2 = "january_2024_Images";

    assert_eq!(matched_conditional(folder_1, &conditions), vec![true, true, true]);

    assert!(match_all_conditional(folder_1, &conditions));

    assert_eq!(matched_conditional(folder_2, &conditions), vec![true, true, false]);

    let test_strs = to_strings(&vec!["image", "cat", "garden"]);

    let folder_3 = "cat-IMAGES_Garden";
    let folder_4 = "images-of-cats-and-dogs-in-the-park";

    assert!(contains_all_conditional_ci(folder_3, &test_strs));
    // the second folder should not match all conditions
    assert_eq!(contains_all_conditional_ci(folder_4, &test_strs), false);

    let file_names = to_strings(&vec![
        "edited-img-Nepal-Feb-2003.psd",
        "image-Thailand-Mar-2003.jpg",
        "photo_Nepal_Jan-2005.jpg",
        "image-India-Mar-2003.jpg",
        "pic_nepal_Dec-2004.png",
    ]);

    let mixed_conditions = bounds_builder()
        .containing_ci("nepal")
        .not_ending_with_ci(".psd")
        .as_vec();

    let file_name_a = file_names[0].clone();
    let file_name_b = file_names[2].clone();

    assert!(match_all_conditional(&file_name_a, &mixed_conditions) == false);

    assert!(match_all_conditional(&file_name_b, &mixed_conditions));

    let nepal_jpg_files = filter_all_conditional(&file_names, &mixed_conditions);

    assert_eq!(nepal_jpg_files.len(), 2);

    assert_eq!(nepal_jpg_files[0], file_name_b);

    let file_names_vector = file_names.clone();

    let nepal_jpg_files_vector = filter_all_conditional(&file_names_vector, &mixed_conditions);

    assert_eq!(nepal_jpg_files_vector.len(), 2);

    assert_eq!(nepal_jpg_files_vector.len(), 2);
}

#[test]
fn test_matched_any_conditional() {
    let false_conditions = vec![
        StringBounds::Whole("no".to_string(), true, CaseMatchMode::Insensitive),
        StringBounds::Whole("false".to_string(), true, CaseMatchMode::Insensitive),
        StringBounds::Contains("not".to_string(), true, CaseMatchMode::Insensitive),
        StringBounds::Contains("negative".to_string(), true, CaseMatchMode::Insensitive),
    ];

    let boolean_strs_1 = to_strings(&vec!["NO", "FALSE", "not at all", "negative result", "Noon"]);

    let falsy_strs = to_strings(&vec!["NO", "FALSE", "not at all", "negative result"]);

    assert_eq!(filter_any_conditional(&boolean_strs_1, &false_conditions), falsy_strs);

    let true_conditions = bounds_builder()
        .is_ci("yes")
        .is_ci("y")
        .starting_with_ci("ok")
        .containing_ci("positive")
        .as_vec();
    let boolean_strs_2 = to_strings(&vec!["Yes", "y", "Yep", "okay", "positive result", "good"]);

    let truthy_strs = to_strings(&vec!["Yes", "y", "okay", "positive result"]);

    assert_eq!(filter_any_conditional(&boolean_strs_2, &true_conditions), truthy_strs);
}

#[test]
fn test_enclose_in_chars() {
    let sample_str = "purple";

    let out_str_1 = "(purple)";

    let out_str_2 = "<purple>";

    let out_str_3 = "‟purple„";

    let out_str_4 = "(?=purple)";

    assert_eq!(parenthesize(sample_str), out_str_1.to_owned());

    assert_eq!(wrap(sample_str, '<'), out_str_2.to_owned());

    assert_eq!(enclose(sample_str, '‟', '„'), out_str_3.to_owned());

    assert_eq!(in_parentheses(sample_str, Some("?=")), out_str_4.to_owned());
}

#[test]
fn test_enclose_escaped_in_chars() {
    let sample_str = r#"Tom whispered "I love you" as he gazed into Jennifer's eyes only inches away."#;

    let expected_quoted_str =
        r#""Tom whispered \"I love you\" as he gazed into Jennifer's eyes only inches away.""#;

    assert_eq!(
        simple_string_patterns::double_quotes_safe(sample_str),
        expected_quoted_str.to_owned()
    );

    let sample_str_2 = r#"Bee's wax and \'organic honey\'"#;

    let expected_quoted_str_2 = r#"'Bee\'s wax and \'organic honey\''"#;

    assert_eq!(single_quotes_safe(sample_str_2), expected_quoted_str_2.to_owned());

    let sample_str_3 = r#"She wrote "From Antarctica with a Cold Heart""#;

    let expected_quoted_str_3 = r#""She wrote ""From Antarctica with a Cold Heart""""#;

    assert_eq!(wrap_escaped(sample_str_3, '"', Some('"')), expected_quoted_str_3.to_owned());
}

#[test]
fn test_filter_by_character_type() {
    // Nonsense text with miscellaneous letters, numbers and punctuation
    let sample_str = "Products: $9.99 per unit, £19.50 each, €15 only. Zürich café cañon";

    let vowels_only = simple_string_patterns::filter_by_type(
        sample_str,
        CharType::Chars(vec!['a', 'e', 'i', 'o', 'u', 'é', 'ü', 'y']),
    );
    let expected_vowel_sequence = "oueuieaoyüiaéao";
    assert_eq!(vowels_only, expected_vowel_sequence);

    let lower_case_letters_a_to_m_only =
        simple_string_patterns::filter_by_type(sample_str, CharType::Range('a', 'm'));
    let expected_letter_sequence = "dceieachlichcafca";
    assert_eq!(lower_case_letters_a_to_m_only, expected_letter_sequence);

    let sample_without_punctuation = strip_by_type(sample_str, CharType::Punctuation);
    let expected_string = "Products 999 per unit £1950 each €15 only Zürich café cañon";
    assert_eq!(sample_without_punctuation, expected_string);

    let sample_without_spaces_and_punct =
        strip_by_types(sample_str, &vec![CharType::Spaces, CharType::Punctuation]);
    let expected_string = "Products999perunit£1950each€15onlyZürichcafécañon";
    assert_eq!(sample_without_spaces_and_punct, expected_string);

    let sample_with_upper_case_accented_chars = simple_string_patterns::filter_by_types(
        sample_str,
        &vec![CharType::Upper, CharType::Chars(vec!['é', 'ü'])],
    );
    let expected_string = "PZüé";
    assert_eq!(sample_with_upper_case_accented_chars, expected_string);

    let sample_with_lower_case_chars_and_spaces = simple_string_patterns::filter_by_types(
        sample_str,
        &vec![CharType::Lower, CharType::Spaces],
    );
    let expected_string = "roducts  per unit  each  only ürich café cañon";
    assert_eq!(sample_with_lower_case_chars_and_spaces, expected_string);

    let sample_str_2 = "Orange: #ff9900";
    let hexadecimal_digits_only =
        simple_string_patterns::filter_by_type(sample_str_2, CharType::Digit(16));
    let expected_letter_sequence = "aeff9900";
    assert_eq!(hexadecimal_digits_only, expected_letter_sequence);
}

#[test]
fn test_split_on_characters() {
    // Sample strings with different, but predictable separators
    let sample_strs = vec![
        "jazz-and-blues-music",
        "rock_and_roll-music",
        "classical music-hall",
    ];

    let split_chars = vec!['-', '_', ' '];
    let words: Vec<Vec<String>> = sample_strs
        .iter()
        .map(|s| split_on_any_char(s, &split_chars))
        .collect();
    let first_line_words = words.get(0);
    assert_eq!(first_line_words.unwrap().last().unwrap().to_owned(), "music".to_owned());

    let last_line_words = words.last();
    assert_eq!(last_line_words.unwrap().get(0).unwrap().to_owned(), "classical".to_owned());

    let sample_str = "jazz-and-blues_music/section";
    let parts = split_on_any_char(sample_str, &vec!['-', '_', '/']);
    let expected_parts = to_strings(&vec!["jazz", "and", "blues", "music", "section"]);
    assert_eq!(parts, expected_parts);
}

#[test]
fn test_bounds_builder() {
    let rules = bounds_builder()
        .starting_with_ci("cat")
        .not_ending_with_ci(".jpg");

    let sample_strs = to_strings(&vec![
        "cat-picture.jpg",
        "Dog-picture.png",
        "CAT-image.png",
        "rabbit-photo.png",
        "cAt-pic.webp",
    ]);

    let filtered_lines = filter_all_rules(&sample_strs, &rules);
    let expected_lines = to_strings(&vec!["CAT-image.png", "cAt-pic.webp"]);
    assert_eq!(filtered_lines, expected_lines);

    let rules_2 = bounds_builder()
        .starting_with_ci("cat")
        .or_ending_with_ci(&to_strings(&vec![".jpg", ".png"]));

    let filtered_lines = filter_all_rules(&sample_strs, &rules_2);
    let expected_lines = to_strings(&vec!["cat-picture.jpg", "CAT-image.png"]);
    assert_eq!(filtered_lines, expected_lines);
}
