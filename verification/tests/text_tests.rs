use stark::text::{
    chars_of, contains_chars, join_fields, remove_chars, remove_pattern, same_chars, split_fields,
    trim,
};

fn chars(s: &str) -> Vec<char> {
    s.chars().collect()
}

#[test]
fn split_and_join_round_trip() {
    let text = chars("a\"\"b\"c\"");
    let fields = split_fields(&text, '"');
    assert_eq!(fields, vec![chars("a"), chars(""), chars("b"), chars("c"), chars("")]);
    assert_eq!(join_fields(&fields, '"'), text);
}

#[test]
fn split_empty_text_gives_one_field() {
    assert_eq!(split_fields(&Vec::new(), '.'), vec![Vec::<char>::new()]);
}

#[test]
fn contains_finds_pattern() {
    assert!(contains_chars(&chars("FIRELINK_ENDPOINT"), &chars("ENDPOINT")));
    assert!(!contains_chars(&chars("FIRELINK_ENDPOIN"), &chars("ENDPOINT")));
    assert!(contains_chars(&chars("abc"), &chars("")));
    assert!(!contains_chars(&chars(""), &chars("a")));
}

#[test]
fn remove_pattern_scans_left_to_right() {
    assert_eq!(remove_pattern(&chars("API_ENDPOINT"), &chars("_ENDPOINT")), chars("API"));
    assert_eq!(remove_pattern(&chars("aaa"), &chars("aa")), chars("a"));
    assert_eq!(remove_pattern(&chars("x_ENDPOINT_ENDPOINTy"), &chars("_ENDPOINT")), chars("xy"));
}

#[test]
fn remove_chars_drops_line_feeds_and_tabs() {
    assert_eq!(remove_chars(&chars("a\n\tb\nc"), '\n', '\t'), chars("abc"));
}

#[test]
fn chars_and_strings() {
    assert_eq!(chars_of("héllo"), chars("héllo"));
    assert!(same_chars(&chars("ab"), &chars("ab")));
    assert!(!same_chars(&chars("ab"), &chars("abc")));
}

#[test]
fn trim_drops_unicode_white_space() {
    assert_eq!(trim("\u{3000}\t key \u{a0}\n"), "key");
    assert_eq!(trim("   "), "");
    assert_eq!(trim("a b"), "a b");
}
