use heart_portal::file_tools::{
    apply_edit, check_read_size, edit_message, image_caption, read_text, write_bytes, write_message,
    Base64Failure, EditError, ReadRefusal, WriteRefusal, MAX_IMAGE_SIZE,
};
use heart_portal::exec_tool::exec_report;
use heart_portal::process_manager::{ProcessStatus, SessionInfo};
use heart_portal::process_tool::{chunk_json, list_json, process_action, status_json, ProcessAction, ProcessToolError};
use heart_portal::web::{
    curl_args, fetch_failure_message, fetch_output_text, fetch_request, fetched_text, FetchRefusal,
};

#[test]
fn edit_replaces_single_occurrence() {
    let o = apply_edit("alpha\nbeta\ngamma\n", "beta", "BETA", 1).unwrap();
    assert_eq!(o.new_content, "alpha\nBETA\ngamma\n");
    assert_eq!(o.replaced, 1);
}

#[test]
fn edit_refuses_missing_text() {
    let e = apply_edit("alpha", "zeta", "x", 1).unwrap_err();
    assert!(matches!(e, EditError::NotFound));
    assert_eq!(e.message(), "text not found in file");
}

#[test]
fn edit_refuses_ambiguous_single_replacement() {
    let e = apply_edit("a a a", "a", "b", 1).unwrap_err();
    assert!(matches!(e, EditError::MultipleMatches(3)));
    assert_eq!(
        e.message(),
        "multiple matches found — be more specific (3 occurrences). Use count=-1 for all."
    );
}

#[test]
fn edit_all_and_bounded_counts() {
    let all = apply_edit("a a a", "a", "b", -1).unwrap();
    assert_eq!(all.new_content, "b b b");
    assert_eq!(all.replaced, 3);
    let two = apply_edit("a a a", "a", "b", 2).unwrap();
    assert_eq!(two.new_content, "b b a");
    assert_eq!(two.replaced, 2);
    let many = apply_edit("a a a", "a", "b", 10).unwrap();
    assert_eq!(many.new_content, "b b b");
    assert_eq!(many.replaced, 3);
    let none = apply_edit("a a a", "a", "b", 0).unwrap();
    assert_eq!(none.new_content, "a a a");
    assert_eq!(none.replaced, 0);
}

#[test]
fn edit_report_shows_context() {
    let m = edit_message("f.txt", "a\nb\nc\n", "b", "x", 1);
    assert_eq!(m, "Replaced in f.txt (lines 1-1)\n   1| a\n   2| b\n   3| c");
    let m = edit_message("f.txt", "b b b", "b", "a", 3);
    assert_eq!(m, "Replaced 3 occurrence(s) in f.txt (5 bytes)");
}

#[test]
fn read_whole_and_windowed() {
    assert_eq!(read_text("one\ntwo\nthree", 0, None), ("one\ntwo\nthree".to_string(), false));
    assert_eq!(
        read_text("one\ntwo\nthree", 1, Some(1)),
        ("[lines 2-2 of 3]\ntwo".to_string(), true)
    );
    assert_eq!(
        read_text("one\ntwo\nthree", 0, Some(5)),
        ("[lines 1-3 of 3]\none\ntwo\nthree".to_string(), false)
    );
    assert_eq!(read_text("one\ntwo", 9, None), ("[lines 3-2 of 2]\n".to_string(), true));
}

#[test]
fn read_cuts_long_text() {
    let content = "x".repeat(100_005);
    let (text, partial) = read_text(&content, 0, None);
    assert!(partial);
    assert!(text.starts_with(&"x".repeat(100_000)));
    assert!(text.ends_with(
        "...\n\n(truncated: showing 100000/100005 bytes. Use offset/limit to read specific sections.)"
    ));
}

#[test]
fn read_size_limits() {
    assert!(check_read_size(false, 10, 10).is_ok());
    let e = check_read_size(false, 11, 10).unwrap_err();
    assert!(matches!(e, ReadRefusal::FileTooLarge { len: 11, max: 10 }));
    assert_eq!(e.message(), "File too large: 11 bytes (max: 10)");
    assert!(check_read_size(true, MAX_IMAGE_SIZE, 10).is_ok());
    let e = check_read_size(true, MAX_IMAGE_SIZE + 1, 10).unwrap_err();
    assert_eq!(e.message(), "Image too large: 10485761 bytes (max: 10485760)");
    assert_eq!(image_caption("a.png", 42), "[Image: a.png (42 bytes)]");
}

#[test]
fn write_bytes_decodes_and_limits() {
    assert_eq!(write_bytes("aGVsbG8=", "base64", false, 100).unwrap(), b"hello".to_vec());
    assert_eq!(write_bytes("a\\nb", "utf-8", true, 100).unwrap(), b"a\nb".to_vec());
    assert_eq!(write_bytes("a\\nb", "utf-8", false, 100).unwrap(), b"a\\nb".to_vec());
    let e = write_bytes("hello", "utf-8", false, 3).unwrap_err();
    assert!(matches!(e, WriteRefusal::TooLarge { len: 5, max: 3 }));
    assert_eq!(e.message(), "Content too large: 5 bytes (max: 3)");
    let e = write_bytes("a*==", "base64", false, 100).unwrap_err();
    assert!(matches!(e, WriteRefusal::InvalidBase64(Base64Failure::InvalidByte(1, 42))));
    assert_eq!(e.message(), "Invalid base64 content: Invalid symbol 42, offset 1.");
    assert_eq!(write_message(false, 5, "/w/a.txt"), "Written 5 bytes to /w/a.txt");
    assert_eq!(write_message(true, 2, "/w/a.txt"), "Appended 2 bytes to /w/a.txt");
}

#[test]
fn fetch_request_checks_url() {
    assert!(matches!(fetch_request(None, None), Err(FetchRefusal::MissingUrl)));
    let e = fetch_request(Some("http://127.0.0.1/"), None).unwrap_err();
    assert_eq!(e.message(), "URL is not allowed (blocked for SSRF protection)");
    let (u, m) = fetch_request(Some("https://example.com/a"), None).unwrap();
    assert_eq!(u, "https://example.com/a");
    assert_eq!(m, 50000);
    assert_eq!(fetch_request(Some("https://example.com/a"), Some(7)).unwrap().1, 7);
    assert_eq!(
        curl_args("https://example.com"),
        vec!["-sfL", "--max-time", "10", "-A", "heart-portal/0.1", "https://example.com"]
    );
}

#[test]
fn fetched_text_is_cut_and_failures_reported() {
    assert_eq!(fetched_text("hello", 10), "hello");
    assert_eq!(fetched_text("hello world", 5), "hello...\n(truncated at 5 chars)");
    assert_eq!(fetch_output_text(&[0x61, 0xff], 10).unwrap(), "a\u{fffd}");
    assert_eq!(fetch_output_text(b"hello world", 5).unwrap(), "hello...\n(truncated at 5 chars)");
    assert!(fetch_output_text("h\u{e9}llo".as_bytes(), 2).is_none());
    assert_eq!(fetch_failure_message(Some(22), b"404"), "Fetch failed (exit 22): 404");
    assert_eq!(fetch_failure_message(None, b""), "Fetch failed (exit -1): ");
}

#[test]
fn process_actions_and_defaults() {
    assert!(matches!(process_action(None, None, None, None, None, None), Err(ProcessToolError::MissingAction)));
    assert!(matches!(process_action(Some("list"), None, None, None, None, None), Ok(ProcessAction::List)));
    match process_action(Some("poll"), Some("s1"), None, None, None, None).unwrap() {
        ProcessAction::Poll { session_id, offset, timeout_ms } => {
            assert_eq!(session_id, "s1");
            assert_eq!(offset, 0);
            assert_eq!(timeout_ms, 5000);
        },
        other => panic!("unexpected {:?}", other),
    }
    match process_action(Some("log"), Some("s1"), Some(4), None, None, None).unwrap() {
        ProcessAction::Log { offset, limit, .. } => {
            assert_eq!(offset, 4);
            assert_eq!(limit, 65536);
        },
        other => panic!("unexpected {:?}", other),
    }
    let e = process_action(Some("kill"), None, None, None, None, None).unwrap_err();
    assert_eq!(e.message(), "Missing 'session_id' for kill");
    let e = process_action(Some("write"), Some("s1"), None, None, None, None).unwrap_err();
    assert_eq!(e.message(), "Missing 'data' for write");
    let e = process_action(Some("dance"), Some("s1"), None, None, None, None).unwrap_err();
    assert_eq!(e.message(), "Unknown action: dance");
}

#[test]
fn process_answers_as_json() {
    assert_eq!(status_json(ProcessStatus::Running), "{\"kind\":\"running\"}");
    assert_eq!(status_json(ProcessStatus::Exited(-2)), "{\"code\":-2,\"kind\":\"exited\"}");
    assert_eq!(
        chunk_json(b"hi\n", 3, false, ProcessStatus::Running, 1, 3),
        "{\"idle_s\":1,\"next_offset\":3,\"output\":\"hi\\n\",\"status\":{\"kind\":\"running\"},\"total_output_bytes\":3,\"truncated\":false}"
    );
    assert_eq!(list_json(&vec![]), "{\n  \"sessions\": []\n}");
    let s = SessionInfo {
        session_id: "p1".to_string(),
        pid: 7,
        command: "ls".to_string(),
        status: ProcessStatus::Exited(0),
        uptime_s: 2,
        idle_s: 1,
        total_output_bytes: 5,
    };
    let expected = "{\n  \"sessions\": [\n    {\n      \"command\": \"ls\",\n      \"idle_s\": 1,\n      \"pid\": 7,\n      \"session_id\": \"p1\",\n      \"status\": {\n        \"code\": 0,\n        \"kind\": \"exited\"\n      },\n      \"total_output_bytes\": 5,\n      \"uptime_s\": 2\n    }\n  ]\n}";
    assert_eq!(list_json(&vec![s]), expected);
}

#[test]
fn exec_answers_report_streams_and_exit_codes() {
    assert_eq!(exec_report(b"hi\n", b"", 0), Some(("hi\n".to_string(), false)));
    assert_eq!(
        exec_report(b"out", b"oops", 2),
        Some(("out\n--- stderr ---\noops\n(exit code: 2)".to_string(), false))
    );
    assert_eq!(exec_report(b"", b"", -1), Some(("\n(exit code: -1)".to_string(), false)));
    let long = vec![b'a'; 100_001];
    let (text, cut) = exec_report(&long, b"", 0).unwrap();
    assert!(cut);
    assert!(text.ends_with("a\n...\n(output truncated at 100000 chars)"));
    assert_eq!(text.len(), 100_000 + "\n...\n(output truncated at 100000 chars)".len());
    let mut split = vec![b'a'; 99_999];
    split.extend_from_slice("é".as_bytes());
    assert_eq!(exec_report(&split, b"", 0), None);
}
