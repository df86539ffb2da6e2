use gateway::strutil::{
    ascii_lower, str_contains, str_eq, str_find_char, str_lt, str_starts_with,
    trim_ascii, usize_to_string,
};

#[test]
fn string_equality_compares_contents() {
    assert!(str_eq("abc", "abc"));
    assert!(!str_eq("abc", "abd"));
    assert!(str_eq("", ""));
}

#[test]
fn prefixes_are_recognized() {
    assert!(str_starts_with("/v1/users/profile", "/v1/users"));
    assert!(!str_starts_with("/v1", "/v1/users"));
    assert!(str_starts_with("anything", ""));
}

#[test]
fn substrings_are_found_anywhere() {
    assert!(str_contains("http://u:80", "://"));
    assert!(!str_contains("u:80", "://"));
    assert!(str_contains("abc", ""));
    assert!(str_contains("abcabd", "abd"));
}

#[test]
fn lowering_touches_only_ascii_letters() {
    assert_eq!(ascii_lower("API.Example-42"), "api.example-42");
    assert_eq!(ascii_lower(""), "");
}

#[test]
fn trimming_removes_surrounding_whitespace() {
    assert_eq!(trim_ascii("  abc \t\r\n"), "abc");
    assert_eq!(trim_ascii("abc"), "abc");
    assert_eq!(trim_ascii("   "), "");
    assert_eq!(trim_ascii("a b"), "a b");
}

#[test]
fn decimals_render_most_significant_digit_first() {
    assert_eq!(usize_to_string(0), "0");
    assert_eq!(usize_to_string(7), "7");
    assert_eq!(usize_to_string(42), "42");
    assert_eq!(usize_to_string(1234567890), "1234567890");
}

#[test]
fn lexicographic_order_is_by_code_point() {
    assert!(str_lt("route-a", "route-b"));
    assert!(!str_lt("route-b", "route-a"));
    assert!(str_lt("a", "ab"));
    assert!(!str_lt("ab", "ab"));
    assert!(str_lt("Z", "a"));
}

#[test]
fn the_first_occurrence_of_a_character_is_found() {
    assert_eq!(str_find_char("a:b:c", ':'), Some(1));
    assert_eq!(str_find_char("abc", ':'), None);
    assert_eq!(str_find_char(":x", ':'), Some(0));
}
