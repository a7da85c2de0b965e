use heart_portal::kit_registry::{same_manifest, FreshKit, KitRegistry};
use heart_portal::kits::{KitManifest, KitToolDef};

fn manifest(name: &str, version: &str) -> KitManifest {
    KitManifest {
        name: name.to_string(),
        version: version.to_string(),
        description: None,
        author: None,
        platform: None,
        runtime: None,
        command: vec!["node".to_string(), "server.js".to_string()],
        tools: vec![KitToolDef { name: "ping".to_string(), description: "Ping".to_string(), params: "{}".to_string() }],
        permissions: None,
        workspace: None,
        eager: None,
    }
}

fn fresh(name: &str, version: &str, command: Vec<&str>, binary_found: bool) -> FreshKit {
    FreshKit {
        manifest: manifest(name, version),
        dir: format!("/kits/{}", name),
        command: command.into_iter().map(str::to_string).collect(),
        binary_found,
    }
}

fn names(r: &KitRegistry) -> Vec<String> {
    r.entries.iter().map(|e| e.manifest.name.clone()).collect()
}

#[test]
fn scanned_kits_are_kept_in_name_order() {
    let mut r = KitRegistry::new();
    r.refresh(vec![
        fresh("zeta", "1.0", vec!["node"], true),
        fresh("alpha", "1.0", vec!["missing-bin"], false),
        fresh("mid", "1.0", vec![], true),
    ]);
    assert_eq!(names(&r), vec!["alpha", "mid", "zeta"]);
    assert!(r.entries[0].health.unhealthy, "program not found starts unhealthy");
    assert!(r.entries[1].health.unhealthy, "empty command starts unhealthy");
    assert!(!r.entries[2].health.unhealthy);
    assert!(r.entries.iter().all(|e| !e.connected));
}

#[test]
fn changed_manifest_starts_over_and_missing_kits_are_dropped() {
    let mut r = KitRegistry::new();
    r.refresh(vec![fresh("a", "1.0", vec!["node"], true), fresh("b", "1.0", vec!["node"], true)]);
    r.entries[0].health.failure_count = 2;
    r.entries[0].health.unhealthy = true;
    r.entries[0].health.last_failure_at = Some(5);
    r.entries[0].health.unsent_calls = 7;
    r.entries[0].connected = true;
    r.refresh(vec![fresh("a", "2.0", vec!["node"], true)]);
    assert_eq!(names(&r), vec!["a"]);
    let a = &r.entries[0];
    assert_eq!(a.manifest.version, "2.0");
    assert_eq!(a.health.failure_count, 0);
    assert!(!a.health.unhealthy);
    assert_eq!(a.health.last_failure_at, None);
    assert_eq!(a.health.unsent_calls, 7);
    assert!(!a.connected);
}

#[test]
fn unchanged_manifest_keeps_its_state() {
    let mut r = KitRegistry::new();
    r.refresh(vec![fresh("a", "1.0", vec!["node"], true)]);
    r.entries[0].health.failure_count = 1;
    r.entries[0].connected = true;
    r.refresh(vec![fresh("a", "1.0", vec!["other"], false)]);
    assert_eq!(r.entries[0].health.failure_count, 1);
    assert!(r.entries[0].connected);
    assert_eq!(r.entries[0].command, vec!["node"]);
}

#[test]
fn manifests_compare_field_by_field() {
    let a = manifest("a", "1.0");
    let mut b = manifest("a", "1.0");
    assert!(same_manifest(&a, &b));
    b.tools[0].params = "{\"type\":\"object\"}".to_string();
    assert!(!same_manifest(&a, &b));
    let mut c = manifest("a", "1.0");
    c.eager = Some(true);
    assert!(!same_manifest(&a, &c));
}
