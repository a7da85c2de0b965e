use base64::Engine;
use heart_portal::cowork::{
    check_auth, cowork_token, entry_key, is_listed, listing_order, media_type, passes_debounce,
    safe_path_verdict, ws_authorized, CoworkRefusal,
};
use heart_portal::ipc::{encode_frame, frame_length, read_frame, FrameError, FrameRead, ToolRouting};
use heart_portal::mcp::PendingRequests;
use heart_portal::numbers::{i64_to_string, parse_i32, parse_u16, u64_to_string};
use heart_portal::rpc_server::{method_of, method_not_found, McpMethod};
use heart_portal::shell_launch::{powershell_encoded_command, shell_args, ShellArg};
use heart_portal::exec_policy::ExecShell;
use heart_portal::platform::TargetOs;
use heart_portal::tool_catalog::{builtin_name, builtin_named, BuiltinTool};

#[test]
fn check_auth_no_token_allows_all() {
    assert!(check_auth("", None).is_ok());
    assert!(check_auth("", Some("Bearer whatever")).is_ok());
}

#[test]
fn check_auth_requires_bearer_when_token_set() {
    let token = "secret-test-token";
    let bad = check_auth(token, Some("Bearer wrong"));
    assert!(matches!(bad, Err(CoworkRefusal::Unauthorized)));
    assert_eq!(bad.unwrap_err().status(), 401);
    assert!(check_auth(token, Some("Bearer secret-test-token")).is_ok());
    assert!(check_auth(token, None).is_err());
}

#[test]
fn cowork_token_prefers_portal_then_loom() {
    assert_eq!(cowork_token(Some("p".into()), Some("l".into())), Some("p".to_string()));
    assert_eq!(cowork_token(Some("".into()), Some("l".into())), Some("l".to_string()));
    assert_eq!(cowork_token(None, Some("".into())), None);
    assert!(ws_authorized("", None));
    assert!(ws_authorized("t", Some("t")));
    assert!(!ws_authorized("t", None));
}

#[test]
fn safe_path_traversal_is_forbidden() {
    let err = safe_path_verdict("/tmp", "/tmp/ws").unwrap_err();
    assert_eq!(err.status(), 403);
    assert!(safe_path_verdict("/tmp/ws/a/b", "/tmp/ws").is_ok());
    assert!(safe_path_verdict("/tmp/wsx", "/tmp/ws").is_err());
}

#[test]
fn listing_puts_directories_first_then_names() {
    let keys = vec![
        entry_key(false, "zebra.txt"),
        entry_key(true, "folder"),
        entry_key(false, "Apple.txt"),
    ];
    assert_eq!(listing_order(&keys), vec![1, 2, 0]);
    assert!(!is_listed(".hidden"));
    assert!(is_listed("folder"));
}

#[test]
fn media_types_and_debounce() {
    assert_eq!(media_type("png"), Some("image/png"));
    assert_eq!(media_type("unknown"), None);
    assert!(passes_debounce(None, 0));
    assert!(!passes_debounce(Some(1_000), 1_100));
    assert!(passes_debounce(Some(1_000), 2_000));
}

#[test]
fn frames_round_trip() {
    let payload = b"{\"hello\":1}".to_vec();
    let mut buf = encode_frame(&payload);
    assert_eq!(&buf[..4], &(payload.len() as u32).to_le_bytes());
    buf.extend_from_slice(b"rest");
    match read_frame(&buf) {
        FrameRead::Frame { payload: p, used } => {
            assert_eq!(p, payload);
            assert_eq!(used, payload.len() + 4);
        }
        _ => panic!("expected a frame"),
    }
    assert!(matches!(read_frame(&vec![1, 0]), FrameRead::Incomplete));
}

#[test]
fn oversized_frames_are_refused() {
    let header = (u32::MAX).to_le_bytes();
    assert!(matches!(frame_length(header), Err(FrameError::TooLarge { .. })));
    assert!(matches!(read_frame(&header.to_vec()), FrameRead::TooLarge { .. }));
}

#[test]
fn routing_last_insert_wins() {
    let mut r = ToolRouting::new();
    r.insert("t".to_string(), "a".to_string());
    r.insert("t".to_string(), "b".to_string());
    assert_eq!(r.lookup("t"), Some("b".to_string()));
    assert_eq!(r.lookup("u"), None);
    r.clear();
    assert_eq!(r.lookup("t"), None);
}

#[test]
fn pending_waiters_are_taken_once() {
    let mut p: PendingRequests<u8> = PendingRequests::new();
    let id = p.register(7).unwrap();
    assert_eq!(p.len(), 1);
    assert_eq!(p.take(id), Some(7));
    assert_eq!(p.take(id), None);
    p.register(8).unwrap();
    assert_eq!(p.close(), 1);
    assert!(!p.is_alive());
    assert!(p.register(9).is_err());
}

#[test]
fn numbers_parse_and_print() {
    assert_eq!(parse_u16("65535"), Some(65535));
    assert_eq!(parse_u16("65536"), None);
    assert_eq!(parse_u16("+1"), Some(1));
    assert_eq!(parse_i32("-2147483648"), Some(i32::MIN));
    assert_eq!(parse_i32("2147483648"), None);
    assert_eq!(u64_to_string(0), "0");
    assert_eq!(u64_to_string(u64::MAX), u64::MAX.to_string());
    assert_eq!(i64_to_string(-42), "-42");
}

#[test]
fn rpc_methods_and_errors() {
    assert_eq!(method_of("tools/call"), McpMethod::ToolsCall);
    assert_eq!(method_of("nope"), McpMethod::Unknown);
    let (code, msg) = method_not_found("nope");
    assert_eq!(code, -32601);
    assert!(msg.contains("nope"));
}

#[test]
fn builtin_names_are_distinct_and_found_again() {
    let all = [
        BuiltinTool::Exec, BuiltinTool::Process, BuiltinTool::WebFetch, BuiltinTool::WebSearch,
        BuiltinTool::FileRead, BuiltinTool::FileWrite, BuiltinTool::FileEdit, BuiltinTool::FileList,
        BuiltinTool::Screenshot, BuiltinTool::Search, BuiltinTool::OauthAuthorize,
        BuiltinTool::ToolsReload, BuiltinTool::Restart, BuiltinTool::KitUsage,
    ];
    for (i, a) in all.iter().enumerate() {
        assert_eq!(builtin_named(builtin_name(*a)), Some(*a));
        for b in all.iter().skip(i + 1) {
            assert_ne!(builtin_name(*a), builtin_name(*b));
        }
    }
}

#[test]
fn shell_launch_arguments() {
    let args = shell_args("echo hi", ExecShell::Default, &TargetOs::Linux);
    let texts: Vec<String> = args
        .iter()
        .map(|a| match a {
            ShellArg::Plain(s) | ShellArg::Raw(s) => s.clone(),
        })
        .collect();
    assert_eq!(texts, vec!["-c".to_string(), "echo hi".to_string()]);
    let encoded = powershell_encoded_command("echo é");
    let bytes = base64::engine::general_purpose::STANDARD.decode(encoded).unwrap();
    assert_eq!(bytes.len() % 2, 0);
}
