use heart_portal::config::{parse_bind, ConfigError};
use heart_portal::exec_policy::{
    shell_arg_flag, shell_program, split_chain_segments, validate_exec_allowlist, ExecPolicyError,
};
use heart_portal::mcp::{McpServerConfig, McpTransport};
use heart_portal::platform::TargetOs;
use std::collections::HashMap;

#[test]
fn test_parse_bind_host_port() {
    let (h, p) = parse_bind("0.0.0.0:9100").unwrap();
    assert_eq!(h, "0.0.0.0");
    assert_eq!(p, 9100);
}

#[test]
fn test_parse_bind_port_only() {
    let (h, p) = parse_bind("9100").unwrap();
    assert_eq!(h, "0.0.0.0");
    assert_eq!(p, 9100);
}

#[test]
fn parse_bind_rejects_bad_port() {
    match parse_bind("0.0.0.0:notaport") {
        Err(ConfigError::InvalidPort { bind, port }) => {
            assert_eq!(bind, "0.0.0.0:notaport");
            assert_eq!(port, "notaport");
        }
        other => panic!("unexpected: {:?}", other),
    }
}

#[test]
fn parse_bind_rejects_bare_word() {
    assert!(matches!(parse_bind("localhost"), Err(ConfigError::InvalidBind { .. })));
}

#[test]
fn allowlist_empty_skips_metachar_check() {
    let allow: Vec<String> = vec![];
    assert!(validate_exec_allowlist("ls; rm -rf /", &allow).is_ok());
}

#[test]
fn allowlist_blocks_semicolon_injection() {
    let allow = vec!["ls".to_string()];
    let err = validate_exec_allowlist("ls; rm -rf /", &allow).unwrap_err();
    let msg = err.message();
    assert!(
        msg.contains("not in exec allowlist") || msg.contains("metacharacters"),
        "unexpected error: {}",
        msg
    );
}

#[test]
fn allowlist_allows_simple_ls() {
    let allow = vec!["ls".to_string()];
    assert!(validate_exec_allowlist("ls -la", &allow).is_ok());
}

#[test]
fn allowlist_blocks_subshell() {
    let allow = vec!["echo".to_string()];
    let err = validate_exec_allowlist("echo $(rm -rf /)", &allow).unwrap_err();
    assert!(err
        .message()
        .contains("Command contains shell metacharacters with non-allowlisted commands"));
}

#[test]
fn allowlist_rejects_unlisted_program() {
    let allow = vec!["ls".to_string()];
    match validate_exec_allowlist("cat /etc/passwd", &allow) {
        Err(ExecPolicyError::NotInAllowlist { program }) => assert_eq!(program, "cat"),
        other => panic!("unexpected: {:?}", other),
    }
}

#[test]
fn allowlist_accepts_chain_of_listed_programs() {
    let allow = vec!["ls".to_string(), "echo".to_string()];
    assert!(validate_exec_allowlist("ls && echo done", &allow).is_ok());
    assert_eq!(split_chain_segments("ls && echo done").len(), 3);
}

#[test]
fn shell_program_matches_target() {
    let unix = TargetOs::Linux;
    assert_eq!(shell_program(&unix), "sh");
    assert_eq!(shell_arg_flag(), "-c");
    assert_eq!(shell_program(&TargetOs::Windows), "cmd");
    assert_eq!(shell_program(&TargetOs::MacOs), "sh");
}

#[test]
fn test_server_config_constructors() {
    let env: HashMap<String, String> = [("KEY".to_string(), "val".to_string())].into();
    let stdio = McpServerConfig::stdio(
        "s1".into(),
        vec!["node".into(), "server.js".into()],
        env,
    );
    assert!(matches!(stdio.transport, McpTransport::Stdio { .. }));

    let tcp = McpServerConfig::tcp("s2".into(), "localhost".into(), 8080);
    assert!(matches!(tcp.transport, McpTransport::Tcp { host, port } if host == "localhost" && port == 8080));
}
