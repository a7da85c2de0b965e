use heart_portal::kits::{
    command_probe, current_platform, format_command, heartbeat_body, heartbeat_url, kit_tool_infos, is_valid_kit_name, kit_env, kit_slug,
    manifest_validation_warnings, platform_matches, resolve_command, resolve_tool, KitHealth,
    KitManifest, KitToolDef, KitTools, SpawnDecision, MAX_FAILURES, RECOVERY_COOLDOWN_SECS,
};
use heart_portal::platform::TargetOs;

fn manifest(name: &str, platform: Option<Vec<String>>, command: Vec<String>, tools: Vec<KitToolDef>) -> KitManifest {
    KitManifest {
        name: name.to_string(),
        version: "0.1.0".to_string(),
        description: None,
        author: None,
        platform,
        runtime: None,
        command,
        tools,
        permissions: None,
        workspace: None,
        eager: None,
    }
}

#[test]
fn validates_kit_names() {
    assert!(is_valid_kit_name("echo-test"));
    assert!(is_valid_kit_name("kit123"));
    assert!(is_valid_kit_name("abc-123"));
    assert!(!is_valid_kit_name(""));
    assert!(!is_valid_kit_name("echo_test"));
    assert!(!is_valid_kit_name("echo test"));
    assert!(!is_valid_kit_name("écho"));
}

#[test]
fn kit_slug_normalizes_hyphens() {
    assert_eq!(kit_slug("agent-reach"), "agent_reach");
    assert_eq!(kit_slug("cua-driver"), "cua_driver");
    assert_eq!(kit_slug("cursor"), "cursor");
    assert_eq!(kit_slug("a-b-c"), "a_b_c");
}

#[test]
fn filters_unsupported_platforms() {
    let m = manifest(
        "hand",
        Some(vec!["definitely-not-this-platform".to_string()]),
        vec!["python3".to_string()],
        vec![],
    );
    let current = current_platform(&TargetOs::Linux);
    assert!(!platform_matches(&m.platform, &current));
    assert!(platform_matches(&None, &current));
    assert!(platform_matches(&Some(vec!["Linux".to_string()]), &current));
}

#[test]
fn resolves_relative_command_from_kit_dir() {
    let command = vec!["bin/server".to_string(), "--stdio".to_string()];
    let os = TargetOs::Linux;
    assert_eq!(command_probe("heart-kit", &command, &os), Some("heart-kit/bin/server".to_string()));
    let resolved = resolve_command("heart-kit", &command, &os, None, None);
    assert_eq!(resolved[0], "heart-kit/bin/server");
    assert_eq!(resolved[1], "--stdio");
}

#[test]
fn resolve_command_prefers_found_program() {
    let os = TargetOs::Linux;
    let command = vec!["server".to_string()];
    let found = resolve_command("/kits/a", &command, &os, Some("/kits/a/server".to_string()), None);
    assert_eq!(found, vec!["/kits/a/server".to_string()]);
    let on_path = resolve_command("/kits/a", &command, &os, None, Some("/usr/bin/server".to_string()));
    assert_eq!(on_path, vec!["/usr/bin/server".to_string()]);
    let as_written = resolve_command("/kits/a", &command, &os, None, None);
    assert_eq!(as_written, vec!["server".to_string()]);
}

#[test]
fn manifest_validation_reports_warning_conditions() {
    let m = manifest("", None, vec![], vec![]);
    let warnings = manifest_validation_warnings(&m, &vec![], false);
    assert_eq!(warnings.len(), 3);
    assert!(warnings.iter().any(|w| w.contains("invalid name")));
    assert!(warnings.iter().any(|w| w.contains("command is empty")));
    assert!(warnings.iter().any(|w| w.contains("no tools defined")));
}

#[test]
fn manifest_validation_warns_when_command_binary_is_missing() {
    let tools = vec![KitToolDef {
        name: "ping".to_string(),
        description: "Ping".to_string(),
        params: "{\"type\":\"object\"}".to_string(),
    }];
    let command = vec!["/definitely/missing/portal-kit-binary".to_string()];
    let m = manifest("missing-command", None, command.clone(), tools);
    let warnings = manifest_validation_warnings(&m, &command, false);
    assert_eq!(warnings.len(), 1);
    assert!(warnings[0].contains("command binary not found"));
    assert!(warnings[0].contains("/definitely/missing/portal-kit-binary"));
}

#[test]
fn format_command_joins_or_marks_empty() {
    assert_eq!(format_command(&vec![]), "<empty>");
    assert_eq!(format_command(&vec!["a".to_string(), "b c".to_string()]), "a b c");
}

#[test]
fn unhealthy_kit_recovers_after_cooldown() {
    let mut state = KitHealth::new(false);
    state.unhealthy = true;
    state.failure_count = MAX_FAILURES;
    state.last_failure_at = Some(1_000);
    state.recover_if_cooled_down(1_000 + RECOVERY_COOLDOWN_SECS + 1);
    assert!(!state.unhealthy, "an unhealthy kit should recover once the cooldown has elapsed");
    assert_eq!(state.failure_count, 0, "recovery should reset failure_count");
}

#[test]
fn unhealthy_kit_stays_unhealthy_within_cooldown() {
    let mut state = KitHealth::new(false);
    state.unhealthy = true;
    state.failure_count = MAX_FAILURES;
    state.last_failure_at = Some(1_000);
    state.recover_if_cooled_down(1_000);
    assert!(state.unhealthy, "a kit within its cooldown window must stay unhealthy");
}

#[test]
fn three_failures_make_a_kit_unhealthy() {
    let mut state = KitHealth::new(false);
    state.record_failure(10);
    state.record_failure(11);
    assert!(!state.unhealthy);
    state.record_failure(12);
    assert!(state.unhealthy);
    assert_eq!(state.last_failure_at, Some(12));
    assert_eq!(state.spawn_decision(13, false), SpawnDecision::RefuseUnhealthy);
    state.record_success();
    assert_eq!(state.failure_count, 0);
}

#[test]
fn kit_env_includes_path() {
    let env = kit_env("healthy", "/tmp", None);
    let path = &env.iter().find(|(k, _)| k == "PATH").expect("kit_env must set PATH").1;
    assert!(path.contains("/opt/homebrew/bin"), "PATH should include Homebrew's bin dir, got: {}", path);
    assert!(path.contains("/usr/bin"), "PATH should include /usr/bin, got: {}", path);
    let name = env.iter().find(|(k, _)| k == "PORTAL_KIT_NAME").map(|(_, v)| v.as_str());
    assert_eq!(name, Some("healthy"), "existing kit env vars must be preserved");
}

#[test]
fn kit_env_prepends_extra_dirs_to_inherited_path() {
    let env = kit_env("k", "/kits/k", Some("/custom/bin".to_string()));
    assert_eq!(env[2].1, "/opt/homebrew/bin:/usr/local/bin:/usr/bin:/bin:/custom/bin");
}

#[test]
fn resolve_tool_uses_normalized_kit_names() {
    let kits = vec![KitTools {
        kit: "agent-reach".to_string(),
        tools: vec!["search".to_string()],
    }];
    assert_eq!(
        resolve_tool(&kits, "agent_reach_search"),
        Some(("agent-reach".to_string(), "search".to_string()))
    );
    assert_eq!(resolve_tool(&kits, "agent_reach_missing"), None);
}

#[test]
fn kit_tools_are_listed_under_the_kit_slug() {
    let m = manifest(
        "my-kit",
        None,
        vec!["node".to_string()],
        vec![KitToolDef { name: "ping".to_string(), description: "Ping".to_string(), params: "{}".to_string() }],
    );
    let infos = kit_tool_infos(&m);
    assert_eq!(infos.len(), 1);
    assert_eq!(infos[0].name, "my_kit_ping");
    assert_eq!(infos[0].description, "Ping");
    assert_eq!(infos[0].input_schema, "{}");
}

#[test]
fn heartbeat_reports() {
    assert_eq!(heartbeat_url("https://g.io", "my-kit", "t0k"), "https://g.io/api/grove/my-kit/heartbeat?token=t0k");
    assert_eq!(heartbeat_body(12), "{\"calls\":12}");
}
