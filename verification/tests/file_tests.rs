use heart_portal::file_tools::{image_mime_type, unescape_backslash_sequences};
use heart_portal::paths::{resolve_path_logical, PathError};

const ROOT: &str = "/workspace";

#[test]
fn test_resolve_relative_path() {
    let result = resolve_path_logical(ROOT, "hello.txt").unwrap();
    assert_eq!(result, "/workspace/hello.txt");
}

#[test]
fn test_resolve_nested_path() {
    let result = resolve_path_logical(ROOT, "subdir/file.md").unwrap();
    assert_eq!(result, "/workspace/subdir/file.md");
}

#[test]
fn test_resolve_dot_path() {
    let result = resolve_path_logical(ROOT, "./hello.txt").unwrap();
    assert_eq!(result, "/workspace/hello.txt");
}

#[test]
fn test_reject_traversal_dotdot() {
    assert!(resolve_path_logical(ROOT, "../etc/passwd").is_err());
}

#[test]
fn test_reject_traversal_deep() {
    assert!(resolve_path_logical(ROOT, "subdir/../../etc/passwd").is_err());
}

#[test]
fn test_reject_absolute_outside() {
    assert!(resolve_path_logical(ROOT, "/etc/passwd").is_err());
}

#[test]
fn test_allow_absolute_inside() {
    let result = resolve_path_logical(ROOT, "/workspace/file.txt").unwrap();
    assert_eq!(result, "/workspace/file.txt");
}

#[test]
fn test_reject_traversal_escape() {
    assert!(resolve_path_logical(ROOT, "a/b/c/../../../../etc/passwd").is_err());
}

#[test]
fn traversal_inside_workspace_is_normalized() {
    assert_eq!(resolve_path_logical(ROOT, "a/b/../c/./d").unwrap(), "/workspace/a/c/d");
}

#[test]
fn path_errors_name_the_request() {
    let e: PathError = resolve_path_logical(ROOT, "/etc/passwd").unwrap_err();
    assert!(e.message().contains("/etc/passwd"));
}

#[test]
fn test_newline() {
    assert_eq!(unescape_backslash_sequences("hello\\nworld"), "hello\nworld");
}

#[test]
fn test_tab() {
    assert_eq!(unescape_backslash_sequences("col1\\tcol2"), "col1\tcol2");
}

#[test]
fn test_carriage_return() {
    assert_eq!(unescape_backslash_sequences("line\\rend"), "line\rend");
}

#[test]
fn test_literal_backslash() {
    assert_eq!(unescape_backslash_sequences("path\\\\file"), "path\\file");
}

#[test]
fn test_unknown_sequence_preserved() {
    assert_eq!(unescape_backslash_sequences("test\\xvalue"), "test\\xvalue");
}

#[test]
fn test_no_escapes() {
    assert_eq!(unescape_backslash_sequences("plain text 123"), "plain text 123");
}

#[test]
fn test_trailing_backslash() {
    assert_eq!(unescape_backslash_sequences("end\\"), "end\\");
}

#[test]
fn test_mixed() {
    assert_eq!(
        unescape_backslash_sequences("line1\\nline2\\ttab\\\\slash"),
        "line1\nline2\ttab\\slash"
    );
}

#[test]
fn unescape_nul() {
    assert_eq!(unescape_backslash_sequences("a\\0b"), "a\0b");
}

#[test]
fn image_mime_types_ignore_case() {
    assert_eq!(image_mime_type("PNG"), Some("image/png"));
    assert_eq!(image_mime_type("jpeg"), Some("image/jpeg"));
    assert_eq!(image_mime_type("Svg"), Some("image/svg+xml"));
    assert_eq!(image_mime_type("txt"), None);
}
