use heart_portal::custom::{
    command_base_has_shell_metachar, custom_route, custom_server_plans, custom_tool_listing,
    has_custom_tool, mcp_content_to_display_text, script_candidate, tool_result_text, tools_dir,
    ContentBlock, ContentShape, CustomCallError, CustomConfigError, CustomServerEntry,
    DiscoveredTool,
};
use heart_portal::platform::TargetOs;

fn entries_from_toml(text: &str) -> Vec<CustomServerEntry> {
    let value: toml::Value = toml::from_str(text).unwrap();
    let mut out = Vec::new();
    if let Some(servers) = value.get("servers").and_then(|s| s.as_array()) {
        for s in servers {
            let name = s.get("name").and_then(|n| n.as_str()).unwrap().to_string();
            let command = s
                .get("command")
                .and_then(|c| c.as_array())
                .map(|a| a.iter().map(|x| x.as_str().unwrap().to_string()).collect())
                .unwrap_or_default();
            let env = s
                .get("env")
                .and_then(|e| e.as_table())
                .map(|t| {
                    t.iter()
                        .map(|(k, v)| (k.clone(), v.as_str().unwrap().to_string()))
                        .collect()
                })
                .unwrap_or_default();
            out.push(CustomServerEntry { name, command, env });
        }
    }
    out
}

#[test]
fn command_base_metachar_detection() {
    assert!(command_base_has_shell_metachar("node;evil"));
    assert!(!command_base_has_shell_metachar("node"));
    assert!(!command_base_has_shell_metachar("/usr/bin/node"));
}

#[test]
fn parse_rejects_metachar_in_command_path() {
    let toml = r#"
[[servers]]
name = "bad"
command = ["node;rm", "-e", "1"]
"#;
    let entries = entries_from_toml(toml);
    let os = TargetOs::Linux;
    let dir = tools_dir("/tmp", &os);
    let exists = vec![false; entries.len()];
    let err = custom_server_plans(&entries, &dir, &exists, &os).unwrap_err();
    assert!(err.message().contains("shell metacharacters"));
    assert!(matches!(err, CustomConfigError::ShellMetachar { ref name, .. } if name == "bad"));
}

#[test]
fn plans_skip_empty_commands_and_resolve_scripts() {
    let toml = r#"
[[servers]]
name = "empty"

[[servers]]
name = "script"
command = ["hello.sh", "--flag"]

[[servers]]
name = "node"
command = ["node", "server.js"]
env = { PORTAL_TOOLS_DIR = "/elsewhere" }
"#;
    let entries = entries_from_toml(toml);
    let os = TargetOs::Linux;
    let dir = tools_dir("/ws", &os);
    assert_eq!(dir, "/ws/tools");
    let exists = vec![false, true, false];
    let plans = custom_server_plans(&entries, &dir, &exists, &os).unwrap();
    assert_eq!(plans.len(), 2);
    assert_eq!(plans[0].name, "script");
    assert_eq!(plans[0].command, vec!["/ws/tools/hello.sh".to_string(), "--flag".to_string()]);
    assert_eq!(plans[0].env, vec![("PORTAL_TOOLS_DIR".to_string(), "/ws/tools".to_string())]);
    assert_eq!(plans[1].command, vec!["node".to_string(), "server.js".to_string()]);
    assert_eq!(plans[1].env, vec![("PORTAL_TOOLS_DIR".to_string(), "/elsewhere".to_string())]);
}

#[test]
fn script_candidates_skip_interpreters_and_absolute_paths() {
    let os = TargetOs::Linux;
    assert_eq!(script_candidate("run.sh", "/ws/tools", &os), Some("/ws/tools/run.sh".to_string()));
    assert_eq!(script_candidate("/bin/run", "/ws/tools", &os), None);
    assert_eq!(script_candidate("python3", "/ws/tools", &os), None);
    assert_eq!(script_candidate("my-node-tool", "/ws/tools", &os), None);
}

#[test]
fn listing_and_routes_follow_discovery() {
    let discovered = vec![
        DiscoveredTool {
            server: "s1".to_string(),
            name: "hello".to_string(),
            description: "Say hello".to_string(),
            input_schema: "{}".to_string(),
        },
        DiscoveredTool {
            server: "s2".to_string(),
            name: "bye".to_string(),
            description: "Say bye".to_string(),
            input_schema: "{}".to_string(),
        },
    ];
    let (tools, routes) = custom_tool_listing(&discovered);
    assert_eq!(tools.len(), 2);
    assert_eq!(tools[1].name, "bye");
    assert_eq!(routes[0], ("hello".to_string(), "s1".to_string()));
    assert!(has_custom_tool(&routes, "bye"));
    assert!(!has_custom_tool(&routes, "nope"));
    assert_eq!(custom_route(&routes, "bye", true).unwrap(), "s2");
    assert!(matches!(custom_route(&routes, "nope", true), Err(CustomCallError::UnknownTool(_))));
    assert!(matches!(custom_route(&routes, "bye", false), Err(CustomCallError::NotInitialized)));
    assert_eq!(
        custom_route(&routes, "nope", true).unwrap_err().message(),
        "Unknown custom tool: nope"
    );
}

#[test]
fn single_text_block_is_shown_bare() {
    let content = ContentShape::Blocks(vec![ContentBlock {
        text: Some("{\"a\":1}".to_string()),
        json: "{\"type\":\"text\",\"text\":\"{\\\"a\\\":1}\"}".to_string(),
    }]);
    assert_eq!(mcp_content_to_display_text(&content), "{\"a\":1}");
}

#[test]
fn mixed_blocks_are_joined_by_lines() {
    let content = ContentShape::Blocks(vec![
        ContentBlock { text: Some("one".to_string()), json: "x".to_string() },
        ContentBlock { text: None, json: "{\"type\":\"image\"}".to_string() },
    ]);
    assert_eq!(mcp_content_to_display_text(&content), "one\n{\"type\":\"image\"}");
    assert_eq!(mcp_content_to_display_text(&ContentShape::Blocks(vec![])), "");
    assert_eq!(mcp_content_to_display_text(&ContentShape::Other("42".to_string())), "42");
    assert_eq!(tool_result_text(&None, "{\"ok\":true}"), "{\"ok\":true}");
}
