use heart_portal::callback::{
    build_callback_payload, clamp_str, delivery_step, redact_url, should_retry_status, tail,
    CallbackTask, DeliveryOutcome, DeliveryStep, CALLBACK_COMMAND_MAX_BYTES,
    CALLBACK_OUTPUT_FALLBACK_BYTES, CALLBACK_OUTPUT_MAX_BYTES, CALLBACK_PAYLOAD_MAX_BYTES,
};
use heart_portal::process_manager::{
    new_session_id, poll_timeout_ms, should_remove, validate_session_id, OutputBuffer,
    ProcessStatus,
};

#[test]
fn output_buffer_ring_and_offsets() {
    let mut b = OutputBuffer::new(10);
    b.append(b"0123456789");
    let (chunk, trunc, n) = b.bytes_since(0);
    assert!(!trunc);
    assert_eq!(n, 10);
    assert_eq!(chunk, b"0123456789");

    b.append(b"ABCDE");
    assert_eq!(b.data.len(), 10);
    let (_, trunc, n2) = b.bytes_since(0);
    assert!(trunc);
    assert_eq!(n2, 15);
    let (chunk2, _, _) = b.bytes_since(10);
    assert_eq!(chunk2, b"ABCDE");
}

#[test]
fn output_buffer_range_reads_from_offset() {
    let mut b = OutputBuffer::new(8);
    b.append(b"abcdefghij");
    assert_eq!(b.total_written(), 10);
    let (chunk, next) = b.bytes_range(4, 3);
    assert_eq!(chunk, b"efg");
    assert_eq!(next, 10);
}

#[test]
fn validate_session_id_accepts_spawn_ids() {
    assert!(validate_session_id("sess_550e8400-e29b-41d4-a716-446655440000").is_ok());
}

#[test]
fn validate_session_id_rejects_bad() {
    assert!(validate_session_id("").is_err());
    assert!(validate_session_id("nope").is_err());
    assert!(validate_session_id(&format!("sess_{}", "x".repeat(200))).is_err());
}

#[test]
fn new_session_ids_are_valid_and_distinct() {
    let a = new_session_id();
    let b = new_session_id();
    assert!(validate_session_id(&a).is_ok());
    assert!(a.starts_with("sess_"));
    assert_ne!(a, b);
}

#[test]
fn poll_timeout_is_capped() {
    assert_eq!(poll_timeout_ms(100), 100);
    assert!(poll_timeout_ms(u64::MAX) < u64::MAX);
}

#[test]
fn exited_sessions_are_removed_after_retention() {
    assert!(!should_remove(ProcessStatus::Running, Some(10_000)));
    assert!(!should_remove(ProcessStatus::Exited(0), Some(1)));
    assert!(should_remove(ProcessStatus::Exited(0), Some(300)));
    assert!(!should_remove(ProcessStatus::Exited(0), None));
}

fn sample_task() -> CallbackTask {
    CallbackTask {
        session_id: "sess_abc".to_string(),
        command: "make test".to_string(),
        workdir: "/home/alice/project".to_string(),
        exit_code: 0,
        elapsed_secs: 42,
    }
}

fn payload(task: &CallbackTask, name: &str, data: &[u8], total: u64) -> serde_json::Value {
    serde_json::from_str(&build_callback_payload(task, name, data, total)).unwrap()
}

#[test]
fn callback_payload_has_prd_shape() {
    let task = sample_task();
    let v = payload(&task, "alice-laptop", b"hello", 5);
    assert_eq!(v["source"], "portal");
    assert_eq!(v["task_id"], "sess_abc");
    assert_eq!(v["summary"], "portal_exec completed: 'make test' (exit 0)");
    assert_eq!(v["result"]["session_id"], "sess_abc");
    assert_eq!(v["result"]["exit_code"], 0);
    assert_eq!(v["result"]["output"], "hello");
    assert_eq!(v["result"]["command"], "make test");
    assert_eq!(v["result"]["workdir"], "/home/alice/project");
    assert_eq!(v["result"]["elapsed_secs"], 42);
    assert_eq!(v["result"]["portal_name"], "alice-laptop");
    assert_eq!(v["result"]["truncated"], false);
    assert_eq!(v["result"]["total_output_bytes"], 5);
}

#[test]
fn callback_payload_takes_tail_and_marks_truncated() {
    let task = sample_task();
    let mut data = vec![b'a'; CALLBACK_OUTPUT_MAX_BYTES];
    data.extend_from_slice(b"THE_END");
    let total = data.len() as u64;
    let v = payload(&task, "p", &data, total);
    let out = v["result"]["output"].as_str().unwrap();
    assert_eq!(out.len(), CALLBACK_OUTPUT_MAX_BYTES);
    assert!(out.ends_with("THE_END"), "tail must be kept, not the head");
    assert_eq!(v["result"]["truncated"], true);
    assert_eq!(v["result"]["total_output_bytes"], total);
}

#[test]
fn callback_payload_truncated_when_ring_dropped_bytes() {
    let task = sample_task();
    let v = payload(&task, "p", b"tail!", 1000);
    assert_eq!(v["result"]["truncated"], true);
    assert_eq!(v["result"]["total_output_bytes"], 1000);
}

#[test]
fn callback_payload_falls_back_when_escaping_blows_the_cap() {
    let task = sample_task();
    let data = vec![0x01u8; CALLBACK_OUTPUT_MAX_BYTES + 10];
    let v = payload(&task, "p", &data, data.len() as u64);
    let out = v["result"]["output"].as_str().unwrap();
    assert_eq!(out.len(), CALLBACK_OUTPUT_FALLBACK_BYTES);
}

#[test]
fn callback_payload_clamps_a_huge_command() {
    let mut task = sample_task();
    task.command = "é".repeat(10_000);
    let text = build_callback_payload(&task, "p", b"", 0);
    let v: serde_json::Value = serde_json::from_str(&text).unwrap();
    let cmd = v["result"]["command"].as_str().unwrap();
    assert!(cmd.len() < CALLBACK_COMMAND_MAX_BYTES + 32);
    assert!(cmd.ends_with("…[truncated]"));
    assert!(serde_json::to_vec(&v).unwrap().len() <= CALLBACK_PAYLOAD_MAX_BYTES);
}

#[test]
fn clamp_keeps_short_text_and_char_boundaries() {
    assert_eq!(clamp_str("short", 100), "short");
    let clamped = clamp_str(&"é".repeat(100), 21);
    assert!(clamped.ends_with("…[truncated]"));
}

#[test]
fn tail_keeps_last_bytes() {
    assert_eq!(tail(b"abcdef", 3), b"def".to_vec());
    assert_eq!(tail(b"ab", 3), b"ab".to_vec());
}

#[test]
fn retry_only_on_5xx() {
    assert!(should_retry_status(500));
    assert!(should_retry_status(503));
    assert!(!should_retry_status(200));
    assert!(!should_retry_status(401));
    assert!(!should_retry_status(413));
    assert!(!should_retry_status(404));
}

#[test]
fn delivery_retries_twice_then_gives_up() {
    assert_eq!(delivery_step(0, DeliveryOutcome::Delivered), DeliveryStep::Done);
    assert_eq!(
        delivery_step(0, DeliveryOutcome::Status(503)),
        DeliveryStep::Retry { attempt: 1, delay_secs: 2 }
    );
    assert_eq!(
        delivery_step(1, DeliveryOutcome::Transport { retryable: true }),
        DeliveryStep::Retry { attempt: 2, delay_secs: 4 }
    );
    assert_eq!(delivery_step(2, DeliveryOutcome::Status(503)), DeliveryStep::GiveUp);
    assert_eq!(delivery_step(0, DeliveryOutcome::Status(401)), DeliveryStep::GiveUp);
}

#[test]
fn redact_url_strips_query() {
    assert_eq!(
        redact_url("https://echo.beings.town/alice/api/callback?token=secret"),
        "https://echo.beings.town/alice/api/callback?<redacted>"
    );
    assert_eq!(
        redact_url("https://echo.beings.town/alice/api/callback"),
        "https://echo.beings.town/alice/api/callback"
    );
}
