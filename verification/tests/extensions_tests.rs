use heart_portal::extensions::{
    default_startup_timeout, default_true, ExtensionConfig, ExtensionError, ExtensionRegistry,
    ExtensionStatus, ExtensionsConfig, StartAction,
};
use heart_portal::platform::TargetOs;

fn cfg(command: &[&str], auto_start: bool) -> ExtensionConfig {
    ExtensionConfig {
        description: "test".to_string(),
        command: command.iter().map(|s| s.to_string()).collect(),
        working_dir: None,
        env: vec![],
        auto_start,
        startup_timeout: default_startup_timeout(),
        restart_on_crash: default_true(),
    }
}

fn config(entries: Vec<(&str, ExtensionConfig)>) -> ExtensionsConfig {
    ExtensionsConfig { extensions: entries.into_iter().map(|(n, c)| (n.to_string(), c)).collect() }
}

#[test]
fn defaults() {
    assert!(default_true());
    assert_eq!(default_startup_timeout(), 30);
    assert!(ExtensionsConfig::default().extensions.is_empty());
}

#[test]
fn initialize_registers_stopped_and_lists_auto_starts() {
    let mut reg = ExtensionRegistry::new();
    let names = reg.initialize(&config(vec![("a", cfg(&["run-a"], true)), ("b", cfg(&["run-b"], false))]));
    assert_eq!(names, vec!["a".to_string()]);
    assert_eq!(reg.states.len(), 2);
    assert!(reg.states.iter().all(|s| s.status == ExtensionStatus::Stopped));
}

#[test]
fn start_and_stop_lifecycle() {
    let mut reg = ExtensionRegistry::new();
    reg.initialize(&config(vec![("a", cfg(&["run-a", "--x"], true))]));
    let os = TargetOs::Linux;
    match reg.begin_start("a", "/ws", &os).unwrap() {
        StartAction::Spawn(plan) => {
            assert_eq!(plan.program, "run-a");
            assert_eq!(plan.args, vec!["--x".to_string()]);
            assert_eq!(plan.working_dir, "/ws");
        }
        StartAction::AlreadyRunning => panic!("should spawn"),
    }
    assert_eq!(reg.get("a").unwrap().status, ExtensionStatus::Starting);
    reg.finish_start("a");
    assert_eq!(reg.get("a").unwrap().status, ExtensionStatus::Running);
    assert!(matches!(reg.begin_start("a", "/ws", &os).unwrap(), StartAction::AlreadyRunning));
    assert_eq!(reg.stop("a").unwrap(), true);
    assert_eq!(reg.get("a").unwrap().status, ExtensionStatus::Stopped);
    assert_eq!(reg.stop("a").unwrap(), false);
    reg.mark_restarting("a");
    assert_eq!(reg.get("a").unwrap().restart_count, 1);
    assert_eq!(reg.get("a").unwrap().status, ExtensionStatus::Restarting);
}

#[test]
fn unknown_and_empty_commands_are_refused() {
    let mut reg = ExtensionRegistry::new();
    reg.initialize(&config(vec![("e", cfg(&[], false))]));
    let os = TargetOs::Linux;
    let err = reg.begin_start("zzz", "/ws", &os).unwrap_err();
    assert_eq!(err.message(), "Extension 'zzz' not found");
    let err = reg.begin_start("e", "/ws", &os).unwrap_err();
    assert!(matches!(err, ExtensionError::EmptyCommand(_)));
    assert_eq!(err.message(), "Extension 'e' has empty command");
    assert!(reg.stop("zzz").is_err());
    let err = reg.call_tool("t").unwrap_err();
    assert_eq!(err.message(), "Tool 't' not found in any running extension");
}

#[test]
fn working_dir_is_under_the_workspace() {
    let mut reg = ExtensionRegistry::new();
    let mut c = cfg(&["srv"], false);
    c.working_dir = Some("ext/dir".to_string());
    reg.initialize(&config(vec![("w", c)]));
    match reg.begin_start("w", "/ws", &TargetOs::Linux).unwrap() {
        StartAction::Spawn(plan) => assert_eq!(plan.working_dir, "/ws/ext/dir"),
        StartAction::AlreadyRunning => panic!("should spawn"),
    }
}

#[test]
fn reload_adds_updates_and_removes() {
    let mut reg = ExtensionRegistry::new();
    reg.initialize(&config(vec![
        ("keep", cfg(&["k"], false)),
        ("change", cfg(&["c1"], false)),
        ("gone", cfg(&["g"], false)),
    ]));
    let os = TargetOs::Linux;
    reg.begin_start("gone", "/ws", &os).unwrap();
    reg.finish_start("gone");
    let new = config(vec![
        ("keep", cfg(&["k"], true)),
        ("change", cfg(&["c2"], false)),
        ("fresh", cfg(&["f"], true)),
    ]);
    let changes = reg.reload(&new);
    assert_eq!(
        changes,
        vec![
            "Stopped removed extension: gone".to_string(),
            "Updated extension: change".to_string(),
            "Added new extension: fresh".to_string(),
        ]
    );
    assert_eq!(reg.states.len(), 3);
    assert!(reg.get("gone").is_none());
    assert_eq!(reg.get("change").unwrap().config.command, vec!["c2".to_string()]);
    assert_eq!(reg.starts_after_reload(&new), vec!["keep".to_string(), "fresh".to_string()]);
}

#[test]
fn env_order_does_not_count_as_a_change() {
    let mut a = cfg(&["x"], false);
    a.env = vec![("A".to_string(), "1".to_string()), ("B".to_string(), "2".to_string())];
    let mut b = cfg(&["x"], false);
    b.env = vec![("B".to_string(), "2".to_string()), ("A".to_string(), "1".to_string())];
    let mut reg = ExtensionRegistry::new();
    reg.initialize(&config(vec![("e", a)]));
    assert!(reg.reload(&config(vec![("e", b)])).is_empty());
}

#[test]
fn status_list_reports_every_extension() {
    let mut reg = ExtensionRegistry::new();
    reg.initialize(&config(vec![("a", cfg(&["x"], false)), ("b", cfg(&["y"], false))]));
    let list = reg.status_list();
    assert_eq!(list.len(), 2);
    assert_eq!(list[0].0, "a");
    assert_eq!(list[0].1, ExtensionStatus::Stopped);
    assert!(reg.all_tools().is_empty());
}
