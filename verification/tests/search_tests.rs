use heart_portal::kits::{coerce_string_argument, ArgCoercion};
use heart_portal::search::{
    grep_file, matches_json, max_matches, search_pattern, search_root, should_search, GrepMatch, SearchError,
};

#[test]
fn pattern_is_required_and_must_compile() {
    assert!(matches!(search_pattern(None), Err(SearchError::MissingPattern)));
    assert_eq!(search_pattern(None).err().unwrap().message(), "Missing 'pattern' argument");
    let e = search_pattern(Some("(unclosed")).err().unwrap();
    assert!(matches!(e, SearchError::InvalidRegex(_)));
    assert!(e.message().starts_with("Invalid regex: "));
    assert!(search_pattern(Some("fn \\w+")).is_ok());
}

#[test]
fn match_limit_defaults_and_caps() {
    assert_eq!(max_matches(None), 200);
    assert_eq!(max_matches(Some(5)), 5);
    assert_eq!(max_matches(Some(5000)), 2000);
}

#[test]
fn search_root_defaults_to_workspace() {
    assert_eq!(search_root("/w", None).unwrap(), "/w");
    assert_eq!(search_root("/w", Some("src")).unwrap(), "/w/src");
    assert!(search_root("/w", Some("../etc")).is_err());
}

#[test]
fn binary_large_and_directories_are_skipped() {
    assert!(should_search(false, 5, 10, b"hello"));
    assert!(!should_search(true, 5, 10, b""));
    assert!(!should_search(false, 11, 10, b"hello"));
    assert!(!should_search(false, 3, 10, &[b'a', 0, b'b']));
}

#[test]
fn grep_reports_matching_lines_up_to_limit() {
    let p = search_pattern(Some("b+")).unwrap();
    let mut out: Vec<GrepMatch> = Vec::new();
    grep_file("src/a.txt", b"abc\nxyz\nbb\r\nb", &p, 2, &mut out);
    assert_eq!(out.len(), 2);
    assert_eq!(out[0].path, "src/a.txt");
    assert_eq!(out[0].line, 1);
    assert_eq!(out[0].text, "abc");
    assert_eq!(out[1].line, 3);
    assert_eq!(out[1].text, "bb");
    grep_file("src/b.txt", b"b", &p, 2, &mut out);
    assert_eq!(out.len(), 2);
}

#[test]
fn grep_cuts_long_lines_and_decodes_lossily() {
    let p = search_pattern(Some("x")).unwrap();
    let mut out: Vec<GrepMatch> = Vec::new();
    let long = "x".repeat(2500);
    grep_file("l.txt", long.as_bytes(), &p, 10, &mut out);
    assert_eq!(out[0].text.chars().count(), 2000);
    grep_file("m.txt", &[b'x', 0xff], &p, 10, &mut out);
    assert_eq!(out[1].text, "x\u{fffd}");
}

#[test]
fn matches_as_json() {
    let ms = vec![GrepMatch { path: "a.rs".to_string(), line: 3, text: "say \"hi\"".to_string() }];
    assert_eq!(matches_json(&ms), "[{\"path\":\"a.rs\",\"line\":3,\"text\":\"say \\\"hi\\\"\"}]");
    assert_eq!(matches_json(&vec![]), "[]");
}

#[test]
fn coerce_string_to_integer() {
    assert_eq!(coerce_string_argument("integer", "42"), ArgCoercion::Integer(42));
    assert_eq!(coerce_string_argument("integer", "-9223372036854775808"), ArgCoercion::Integer(i64::MIN));
    assert_eq!(coerce_string_argument("integer", "9223372036854775808"), ArgCoercion::Keep);
}

#[test]
fn coerce_string_to_number() {
    assert_eq!(coerce_string_argument("number", "3.14"), ArgCoercion::Number);
    assert_eq!("3.14".parse::<f64>().unwrap(), 3.14);
}

#[test]
fn coerce_string_to_boolean() {
    assert_eq!(coerce_string_argument("boolean", "true"), ArgCoercion::Boolean(true));
    assert_eq!(coerce_string_argument("boolean", "false"), ArgCoercion::Boolean(false));
}

#[test]
fn coerce_leaves_unparseable_string_as_is() {
    assert_eq!(coerce_string_argument("integer", "not-a-number"), ArgCoercion::Keep);
    assert_eq!(coerce_string_argument("boolean", "yes"), ArgCoercion::Keep);
}

#[test]
fn coerce_string_to_array() {
    assert_eq!(coerce_string_argument("array", "[\"a\",\"b\"]"), ArgCoercion::Array);
    assert_eq!(coerce_string_argument("array", "{\"a\":1}"), ArgCoercion::Keep);
    assert_eq!(coerce_string_argument("array", "[1,"), ArgCoercion::Keep);
    assert_eq!(coerce_string_argument("string", "[1]"), ArgCoercion::Keep);
}
