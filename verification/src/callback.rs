//! The report a finished background session sends to Heart: its JSON body,
//! the size budget that body is held to, and the retry policy of delivery.
use vstd::prelude::*;
use vstd::utf8::{decode_utf8, valid_utf8};
use crate::json_text::{json_quoted, json_string};
use crate::numbers::{decimal, decimal_signed, i64_to_string, u64_to_string};
use crate::text::{char_len_utf8, char_width, chars_of, find_char, find_char_vec, has_char, push_char, string_of_range, utf8_len};

verus! {

/// Tail of the output ring buffer attached to a callback payload.
/// 200KB leaves ~56KB of headroom for the other payload fields (cap 256KB).
pub const CALLBACK_OUTPUT_MAX_BYTES: usize = 204800;
/// Smaller tail used when the JSON-escaped payload still exceeds the cap.
pub const CALLBACK_OUTPUT_FALLBACK_BYTES: usize = 131072;
/// Hard cap on the serialized callback payload.
pub const CALLBACK_PAYLOAD_MAX_BYTES: usize = 262144;
/// The command is caller-supplied and otherwise unbounded; keep it from eating
/// the payload budget that the output tail is sized against.
pub const CALLBACK_COMMAND_MAX_BYTES: usize = 4096;
/// 1 initial attempt + 2 retries.
pub const CALLBACK_ATTEMPTS: u32 = 3;

/// A finished background session, as reported to Heart.
#[derive(Clone, Debug)]
pub struct CallbackTask {
    pub session_id: String,
    pub command: String,
    pub workdir: String,
    pub exit_code: i32,
    pub elapsed_secs: u64,
}

/// The text `String::from_utf8_lossy` makes of `b`.
pub uninterp spec fn utf8_lossy(b: Seq<u8>) -> Seq<char>;

/// `String::from_utf8_lossy`: `b` decoded as UTF-8, each invalid sequence
/// replaced by U+FFFD. Valid UTF-8 decodes to exactly its characters.
#[verifier::external_body]
pub(crate) fn lossy_string(b: &[u8]) -> (r: String)
    ensures
        r@ == utf8_lossy(b@),
        valid_utf8(b@) ==> r@ == decode_utf8(b@),
{
    String::from_utf8_lossy(b).into_owned()
}

/// The last `max` bytes of `data`.
pub open spec fn tail_spec(data: Seq<u8>, max: int) -> Seq<u8> {
    if data.len() <= max {
        data
    } else {
        data.subrange(data.len() - max, data.len() as int)
    }
}

/// Last `max` bytes of `data` (tail — the interesting end of a build/test log).
pub fn tail(data: &[u8], max: usize) -> (r: Vec<u8>)
    ensures
        r@ == tail_spec(data@, max as int),
{
    let len = data.len();
    let from: usize = if len <= max {
        0
    } else {
        len - max
    };
    let mut out: Vec<u8> = Vec::new();
    let mut i = from;
    while i < len
        invariant
            from <= i <= len == data@.len(),
            out@ == data@.subrange(from as int, i as int),
        decreases len - i,
    {
        out.push(data[i]);
        assert(data@.subrange(from as int, i + 1) =~= data@.subrange(from as int, i as int).push(
            data@[i as int],
        ));
        i += 1;
    }
    assert(len <= max ==> data@.subrange(0, len as int) =~= data@);
    out
}

/// The longest prefix of `s` made of whole characters whose UTF-8 encoding
/// fits in `budget` bytes.
pub open spec fn fit_prefix(s: Seq<char>, budget: int) -> Seq<char>
    decreases s.len(),
{
    if s.len() == 0 || char_width(s[0]) > budget {
        Seq::empty()
    } else {
        seq![s[0]] + fit_prefix(s.drop_first(), budget - char_width(s[0]))
    }
}

/// The marker that ends a clamped string.
pub open spec fn truncation_marker() -> Seq<char> {
    "…[truncated]"@
}

/// `s` when its UTF-8 encoding fits in `max` bytes; otherwise its longest
/// whole-character prefix that fits, followed by the truncation marker.
pub open spec fn clamp_text(s: Seq<char>, max: int) -> Seq<char> {
    if utf8_len(s) <= max {
        s
    } else {
        fit_prefix(s, max) + truncation_marker()
    }
}

proof fn lemma_fit_prefix_step(s: Seq<char>, i: int, budget: int)
    requires
        0 <= i < s.len(),
    ensures
        char_width(s[i]) <= budget ==> fit_prefix(s.skip(i), budget) == seq![s[i]] + fit_prefix(
            s.skip(i + 1),
            budget - char_width(s[i]),
        ),
        char_width(s[i]) > budget ==> fit_prefix(s.skip(i), budget) == Seq::<char>::empty(),
{
    assert(s.skip(i).drop_first() =~= s.skip(i + 1));
    assert(s.skip(i)[0] == s[i]);
}

/// Head of `s` capped at `max` bytes, never splitting a UTF-8 char.
pub fn clamp_str(s: &str, max: usize) -> (r: String)
    ensures
        r@ == clamp_text(s@, max as int),
{
    if s.as_bytes().len() <= max {
        return s.to_owned();
    }
    let cs = chars_of(s);
    let mut out = String::new();
    let mut used: usize = 0;
    let mut i: usize = 0;
    proof {
        assert(cs@.skip(0) =~= cs@);
    }
    while i < cs.len() && char_len_utf8(cs[i]) <= max - used
        invariant
            i <= cs@.len(),
            used <= max,
            out@ == cs@.take(i as int),
            fit_prefix(cs@, max as int) == cs@.take(i as int) + fit_prefix(
                cs@.skip(i as int),
                max - used,
            ),
        decreases cs.len() - i,
    {
        let w = char_len_utf8(cs[i]);
        proof {
            lemma_fit_prefix_step(cs@, i as int, max - used);
            assert(cs@.take(i + 1) =~= cs@.take(i as int).push(cs@[i as int]));
            assert(cs@.take(i as int) + (seq![cs@[i as int]] + fit_prefix(
                cs@.skip(i + 1),
                max - used - w,
            )) =~= cs@.take(i + 1) + fit_prefix(cs@.skip(i + 1), max - used - w));
        }
        push_char(&mut out, cs[i]);
        used = used + w;
        i = i + 1;
    }
    proof {
        if i < cs@.len() {
            lemma_fit_prefix_step(cs@, i as int, max - used);
        } else {
            assert(cs@.skip(i as int).len() == 0);
        }
        assert(cs@.take(i as int) + Seq::<char>::empty() =~= cs@.take(i as int));
    }
    out.append("…[truncated]");
    out
}

/// Retry 5xx (Heart restarting / proxy hiccup); never retry 4xx (401, 413, …).
pub fn should_retry_status(status: u16) -> (r: bool)
    ensures
        r == (status >= 500),
{
    status >= 500
}

/// `url` with its query string replaced by `?<redacted>`.
pub open spec fn redacted(url: Seq<char>) -> Seq<char> {
    if has_char(url, '?') {
        url.take(find_char(url, '?')) + "?<redacted>"@
    } else {
        url
    }
}

/// Strip the query string so a token can never reach the logs.
pub fn redact_url(url: &str) -> (r: String)
    ensures
        r@ == redacted(url@),
{
    let cs = chars_of(url);
    match find_char_vec(&cs, '?') {
        Some(i) => {
            proof {
                crate::text::lemma_find_char(cs@, '?');
            }
            let mut out = string_of_range(&cs, 0, i);
            out.append("?<redacted>");
            proof {
                assert(cs@.subrange(0, i as int) =~= cs@.take(i as int));
            }
            out
        },
        None => {
            proof {
                crate::text::lemma_find_char(cs@, '?');
            }
            url.to_owned()
        },
    }
}

/// The one-line summary Heart shows for a finished session.
pub open spec fn callback_summary(command: Seq<char>, exit_code: int) -> Seq<char> {
    "portal_exec completed: '"@ + command + "' (exit "@ + decimal_signed(exit_code) + ")"@
}

/// The JSON literal of a boolean.
pub open spec fn json_bool(b: bool) -> Seq<char> {
    if b {
        "true"@
    } else {
        "false"@
    }
}

/// The callback body, as the compact JSON object with its keys in sorted order.
pub open spec fn callback_json(
    session_id: Seq<char>,
    command: Seq<char>,
    workdir: Seq<char>,
    exit_code: int,
    elapsed_secs: nat,
    portal_name: Seq<char>,
    output: Seq<char>,
    truncated: bool,
    total_output_bytes: nat,
) -> Seq<char> {
    "{\"result\":{\"command\":"@ + json_quoted(command) + ",\"elapsed_secs\":"@ + decimal(
        elapsed_secs,
    ) + ",\"exit_code\":"@ + decimal_signed(exit_code) + ",\"output\":"@ + json_quoted(output)
        + ",\"portal_name\":"@ + json_quoted(portal_name) + ",\"session_id\":"@ + json_quoted(
        session_id,
    ) + ",\"total_output_bytes\":"@ + decimal(total_output_bytes) + ",\"truncated\":"@
        + json_bool(truncated) + ",\"workdir\":"@ + json_quoted(workdir)
        + "},\"source\":\"portal\",\"summary\":"@ + json_quoted(
        callback_summary(command, exit_code),
    ) + ",\"task_id\":"@ + json_quoted(session_id) + "}"@
}

/// The callback body of `task` carrying the last `max_output` bytes of `data`.
pub open spec fn payload_spec(
    task: CallbackTask,
    portal_name: Seq<char>,
    data: Seq<u8>,
    total_output_bytes: u64,
    max_output: int,
) -> Seq<char> {
    let slice = tail_spec(data, max_output);
    let command = clamp_text(task.command@, CALLBACK_COMMAND_MAX_BYTES as int);
    callback_json(
        task.session_id@,
        command,
        task.workdir@,
        task.exit_code as int,
        task.elapsed_secs as nat,
        portal_name,
        utf8_lossy(slice),
        slice.len() < total_output_bytes,
        total_output_bytes as nat,
    )
}

/// The callback body of `task` with the last `max_output` bytes of `data` as its output.
pub fn payload_with_tail(
    task: &CallbackTask,
    portal_name: &str,
    data: &[u8],
    total_output_bytes: u64,
    max_output: usize,
) -> (r: String)
    ensures
        r@ == payload_spec(*task, portal_name@, data@, total_output_bytes, max_output as int),
{
    let slice = tail(data, max_output);
    let truncated = (slice.len() as u64) < total_output_bytes;
    let command = clamp_str(task.command.as_str(), CALLBACK_COMMAND_MAX_BYTES);
    let output = lossy_string(slice.as_slice());
    let code = i64_to_string(task.exit_code as i64);
    let mut summary = String::from_str("portal_exec completed: '");
    summary.append(command.as_str());
    summary.append("' (exit ");
    summary.append(code.as_str());
    summary.append(")");
    let mut out = String::from_str("{\"result\":{\"command\":");
    out.append(json_string(command.as_str()).as_str());
    out.append(",\"elapsed_secs\":");
    out.append(u64_to_string(task.elapsed_secs).as_str());
    out.append(",\"exit_code\":");
    out.append(code.as_str());
    out.append(",\"output\":");
    out.append(json_string(output.as_str()).as_str());
    out.append(",\"portal_name\":");
    out.append(json_string(portal_name).as_str());
    out.append(",\"session_id\":");
    out.append(json_string(task.session_id.as_str()).as_str());
    out.append(",\"total_output_bytes\":");
    out.append(u64_to_string(total_output_bytes).as_str());
    out.append(",\"truncated\":");
    if truncated {
        out.append("true");
    } else {
        out.append("false");
    }
    out.append(",\"workdir\":");
    out.append(json_string(task.workdir.as_str()).as_str());
    out.append("},\"source\":\"portal\",\"summary\":");
    out.append(json_string(summary.as_str()).as_str());
    out.append(",\"task_id\":");
    out.append(json_string(task.session_id.as_str()).as_str());
    out.append("}");
    out
}

/// The `POST /api/callback` body: the tail of `CALLBACK_OUTPUT_MAX_BYTES`
/// when the whole body then fits in `CALLBACK_PAYLOAD_MAX_BYTES`, else the
/// shorter tail of `CALLBACK_OUTPUT_FALLBACK_BYTES`.
pub open spec fn callback_body(
    task: CallbackTask,
    portal_name: Seq<char>,
    data: Seq<u8>,
    total_output_bytes: u64,
) -> Seq<char> {
    let first = payload_spec(
        task,
        portal_name,
        data,
        total_output_bytes,
        CALLBACK_OUTPUT_MAX_BYTES as int,
    );
    if utf8_len(first) <= CALLBACK_PAYLOAD_MAX_BYTES {
        first
    } else {
        payload_spec(task, portal_name, data, total_output_bytes, CALLBACK_OUTPUT_FALLBACK_BYTES as int)
    }
}

/// Build the `POST /api/callback` body. Output is the *tail* of the ring buffer;
/// if JSON escaping still blows past the payload cap, fall back to a shorter tail.
pub fn build_callback_payload(
    task: &CallbackTask,
    portal_name: &str,
    data: &[u8],
    total_output_bytes: u64,
) -> (r: String)
    ensures
        r@ == callback_body(*task, portal_name@, data@, total_output_bytes),
{
    let payload = payload_with_tail(
        task,
        portal_name,
        data,
        total_output_bytes,
        CALLBACK_OUTPUT_MAX_BYTES,
    );
    if payload.as_str().as_bytes().len() <= CALLBACK_PAYLOAD_MAX_BYTES {
        return payload;
    }
    payload_with_tail(task, portal_name, data, total_output_bytes, CALLBACK_OUTPUT_FALLBACK_BYTES)
}

/// How one delivery attempt ended.
#[derive(Clone, Copy, Debug, PartialEq, Eq, Structural)]
pub enum DeliveryOutcome {
    /// Heart answered with a 2xx status.
    Delivered,
    /// Heart answered with another status.
    Status(u16),
    /// No answer; `retryable` when the failure was a connect error or a timeout.
    Transport { retryable: bool },
}

/// What the delivery loop does next.
#[derive(Clone, Copy, Debug, PartialEq, Eq, Structural)]
pub enum DeliveryStep {
    /// The callback arrived; stop.
    Done,
    /// Wait `delay_secs` seconds, then make attempt number `attempt` (counting from 0).
    Retry { attempt: u32, delay_secs: u64 },
    /// Stop without delivering; the failure is logged.
    GiveUp,
}

/// The wait before attempt number `attempt` (1 or 2): 2 s, then 4 s.
pub open spec fn retry_delay(attempt: int) -> int {
    2 * attempt
}

/// After attempt number `attempt` (counting from 0) ended with `outcome`:
/// stop on success; retry a 5xx answer or a retryable transport failure
/// while attempts remain; give up otherwise.
pub open spec fn next_delivery_step(attempt: int, outcome: DeliveryOutcome) -> DeliveryStep {
    let retryable = match outcome {
        DeliveryOutcome::Delivered => false,
        DeliveryOutcome::Status(s) => s >= 500,
        DeliveryOutcome::Transport { retryable } => retryable,
    };
    if outcome is Delivered {
        DeliveryStep::Done
    } else if retryable && attempt + 1 < CALLBACK_ATTEMPTS {
        DeliveryStep::Retry {
            attempt: (attempt + 1) as u32,
            delay_secs: retry_delay(attempt + 1) as u64,
        }
    } else {
        DeliveryStep::GiveUp
    }
}

/// The decision the callback delivery loop takes after each attempt.
pub fn delivery_step(attempt: u32, outcome: DeliveryOutcome) -> (r: DeliveryStep)
    requires
        attempt < CALLBACK_ATTEMPTS,
    ensures
        r == next_delivery_step(attempt as int, outcome),
{
    let retryable = match outcome {
        DeliveryOutcome::Delivered => false,
        DeliveryOutcome::Status(s) => should_retry_status(s),
        DeliveryOutcome::Transport { retryable } => retryable,
    };
    match outcome {
        DeliveryOutcome::Delivered => DeliveryStep::Done,
        _ => {
            if retryable && attempt + 1 < CALLBACK_ATTEMPTS {
                DeliveryStep::Retry { attempt: attempt + 1, delay_secs: 2 * (attempt as u64 + 1) }
            } else {
                DeliveryStep::GiveUp
            }
        },
    }
}

} // verus!
