//! The `portal_process` tool: which action a call asks for (list, poll,
//! log, write, kill) with its arguments and defaults, and the JSON texts of
//! its answers (keys in `serde_json`'s sorted order).
use vstd::prelude::*;
use crate::callback::{lossy_string, utf8_lossy};
use crate::json_text::{json_quoted, json_string};
use crate::numbers::{decimal, decimal_signed, i64_to_string, u64_to_string};
use crate::process_manager::{ProcessStatus, SessionInfo};

verus! {

/// Bytes returned by `log` when the call names no limit.
pub const DEFAULT_LOG_LIMIT: u64 = 65536;

/// Milliseconds `poll` waits when the call names no timeout.
pub const DEFAULT_POLL_TIMEOUT_MS: u64 = 5000;

/// What a `portal_process` call asks for.
#[derive(Debug)]
pub enum ProcessAction {
    List,
    Poll { session_id: String, offset: u64, timeout_ms: u64 },
    Log { session_id: String, offset: u64, limit: u64 },
    Write { session_id: String, data: String },
    Kill { session_id: String },
}

/// Why a `portal_process` call is refused.
#[derive(Debug)]
pub enum ProcessToolError {
    MissingAction,
    MissingSessionId(&'static str),
    MissingData,
    UnknownAction(String),
}

impl ProcessToolError {
    /// The error's message.
    pub fn message(&self) -> (r: String)
        ensures
            match self {
                ProcessToolError::MissingAction => r@ == "Missing 'action'"@,
                ProcessToolError::MissingSessionId(a) => r@ == "Missing 'session_id' for "@ + a@,
                ProcessToolError::MissingData => r@ == "Missing 'data' for write"@,
                ProcessToolError::UnknownAction(a) => r@ == "Unknown action: "@ + a@,
            },
    {
        match self {
            ProcessToolError::MissingAction => String::from_str("Missing 'action'"),
            ProcessToolError::MissingSessionId(a) => {
                let mut m = String::from_str("Missing 'session_id' for ");
                m.append(a);
                m
            },
            ProcessToolError::MissingData => String::from_str("Missing 'data' for write"),
            ProcessToolError::UnknownAction(a) => {
                let mut m = String::from_str("Unknown action: ");
                m.append(a.as_str());
                m
            },
        }
    }
}

/// The view of an optional text.
pub open spec fn opt_text(o: Option<&str>) -> Option<Seq<char>> {
    match o {
        Some(s) => Some(s@),
        None => None,
    }
}

/// The action of a call with the given arguments: `action` is required and
/// must name one of the five; every action but `list` requires a session
/// id, `write` its data; offsets default to 0, the poll timeout to 5000 ms,
/// the log limit to 64 KiB.
pub fn process_action(
    action: Option<&str>,
    session_id: Option<&str>,
    offset: Option<u64>,
    timeout_ms: Option<u64>,
    limit: Option<u64>,
    data: Option<&str>,
) -> (r: Result<ProcessAction, ProcessToolError>)
    ensures
        match action {
            None => r matches Err(ProcessToolError::MissingAction),
            Some(a) => if a@ == "list"@ {
                r matches Ok(ProcessAction::List)
            } else if a@ == "poll"@ || a@ == "log"@ || a@ == "write"@ || a@ == "kill"@ {
                match session_id {
                    None => r matches Err(ProcessToolError::MissingSessionId(x)) && x@ == a@,
                    Some(s) => if a@ == "poll"@ {
                        r matches Ok(ProcessAction::Poll { session_id: id, offset: o, timeout_ms: t })
                            && id@ == s@ && o == (match offset {
                            Some(v) => v,
                            None => 0,
                        }) && t == (match timeout_ms {
                            Some(v) => v,
                            None => DEFAULT_POLL_TIMEOUT_MS,
                        })
                    } else if a@ == "log"@ {
                        r matches Ok(ProcessAction::Log { session_id: id, offset: o, limit: l })
                            && id@ == s@ && o == (match offset {
                            Some(v) => v,
                            None => 0,
                        }) && l == (match limit {
                            Some(v) => v,
                            None => DEFAULT_LOG_LIMIT,
                        })
                    } else if a@ == "write"@ {
                        match data {
                            None => r matches Err(ProcessToolError::MissingData),
                            Some(d) => r matches Ok(ProcessAction::Write { session_id: id, data: x })
                                && id@ == s@ && x@ == d@,
                        }
                    } else {
                        r matches Ok(ProcessAction::Kill { session_id: id }) && id@ == s@
                    },
                }
            } else {
                r matches Err(ProcessToolError::UnknownAction(x)) && x@ == a@
            },
        },
{
    let a = match action {
        Some(a) => a,
        None => {
            return Err(ProcessToolError::MissingAction);
        },
    };
    proof {
        reveal_strlit("list");
        reveal_strlit("poll");
        reveal_strlit("log");
        reveal_strlit("write");
        reveal_strlit("kill");
    }
    if crate::text::same_text(a, "list") {
        return Ok(ProcessAction::List);
    }
    let name: &'static str = if crate::text::same_text(a, "poll") {
        "poll"
    } else if crate::text::same_text(a, "log") {
        "log"
    } else if crate::text::same_text(a, "write") {
        "write"
    } else if crate::text::same_text(a, "kill") {
        "kill"
    } else {
        return Err(ProcessToolError::UnknownAction(a.to_owned()));
    };
    let s = match session_id {
        Some(s) => s.to_owned(),
        None => {
            return Err(ProcessToolError::MissingSessionId(name));
        },
    };
    let o = match offset {
        Some(v) => v,
        None => 0,
    };
    if crate::text::same_text(a, "poll") {
        let t = match timeout_ms {
            Some(v) => v,
            None => DEFAULT_POLL_TIMEOUT_MS,
        };
        Ok(ProcessAction::Poll { session_id: s, offset: o, timeout_ms: t })
    } else if crate::text::same_text(a, "log") {
        let l = match limit {
            Some(v) => v,
            None => DEFAULT_LOG_LIMIT,
        };
        Ok(ProcessAction::Log { session_id: s, offset: o, limit: l })
    } else if crate::text::same_text(a, "write") {
        match data {
            Some(d) => Ok(ProcessAction::Write { session_id: s, data: d.to_owned() }),
            None => Err(ProcessToolError::MissingData),
        }
    } else {
        Ok(ProcessAction::Kill { session_id: s })
    }
}

/// The JSON of a status: `{"kind":"running"}` or `{"code":c,"kind":"exited"}`.
pub open spec fn status_json_spec(st: ProcessStatus) -> Seq<char> {
    match st {
        ProcessStatus::Running => "{\"kind\":\"running\"}"@,
        ProcessStatus::Exited(c) => "{\"code\":"@ + decimal_signed(c as int) + ",\"kind\":\"exited\"}"@,
    }
}

/// The JSON of a status (see [`status_json_spec`]).
pub fn status_json(st: ProcessStatus) -> (r: String)
    ensures
        r@ == status_json_spec(st),
{
    match st {
        ProcessStatus::Running => String::from_str("{\"kind\":\"running\"}"),
        ProcessStatus::Exited(c) => {
            let mut m = String::from_str("{\"code\":");
            m.append(i64_to_string(c as i64).as_str());
            m.append(",\"kind\":\"exited\"}");
            m
        },
    }
}

/// The JSON text of a `poll` or `log` answer.
pub open spec fn chunk_json_spec(
    output: Seq<u8>,
    next_offset: u64,
    truncated: bool,
    st: ProcessStatus,
    idle_s: u64,
    total: u64,
) -> Seq<char> {
    "{\"idle_s\":"@ + decimal(idle_s as nat) + ",\"next_offset\":"@ + decimal(next_offset as nat)
        + ",\"output\":"@ + json_quoted(utf8_lossy(output)) + ",\"status\":"@ + status_json_spec(st)
        + ",\"total_output_bytes\":"@ + decimal(total as nat) + ",\"truncated\":"@ + (if truncated {
        "true"@
    } else {
        "false"@
    }) + "}"@
}

/// The JSON text of a `poll` or `log` answer: the output (decoded as UTF-8,
/// each invalid sequence replaced), where to read next, whether bytes were
/// lost, the status, the idle time and the total output.
pub fn chunk_json(
    output: &[u8],
    next_offset: u64,
    truncated: bool,
    st: ProcessStatus,
    idle_s: u64,
    total: u64,
) -> (r: String)
    ensures
        r@ == chunk_json_spec(output@, next_offset, truncated, st, idle_s, total),
{
    let text = lossy_string(output);
    let mut m = String::from_str("{\"idle_s\":");
    m.append(u64_to_string(idle_s).as_str());
    m.append(",\"next_offset\":");
    m.append(u64_to_string(next_offset).as_str());
    m.append(",\"output\":");
    m.append(json_string(text.as_str()).as_str());
    m.append(",\"status\":");
    m.append(status_json(st).as_str());
    m.append(",\"total_output_bytes\":");
    m.append(u64_to_string(total).as_str());
    m.append(",\"truncated\":");
    m.append(if truncated {
        "true"
    } else {
        "false"
    });
    m.append("}");
    m
}

/// `n` spaces.
pub open spec fn spaces(n: nat) -> Seq<char> {
    Seq::new(n, |i: int| ' ')
}

/// A status as pretty JSON inside a session at the list's depth.
pub open spec fn status_pretty(st: ProcessStatus) -> Seq<char> {
    match st {
        ProcessStatus::Running => "{\n"@ + spaces(8) + "\"kind\": \"running\"\n"@ + spaces(6) + "}"@,
        ProcessStatus::Exited(c) => "{\n"@ + spaces(8) + "\"code\": "@ + decimal_signed(c as int)
            + ",\n"@ + spaces(8) + "\"kind\": \"exited\"\n"@ + spaces(6) + "}"@,
    }
}

/// One session of the list as pretty JSON (fields in sorted order).
pub open spec fn session_pretty(s: SessionInfo) -> Seq<char> {
    "{\n"@ + spaces(6) + "\"command\": "@ + json_quoted(s.command@) + ",\n"@ + spaces(6)
        + "\"idle_s\": "@ + decimal(s.idle_s as nat) + ",\n"@ + spaces(6) + "\"pid\": "@ + decimal(
        s.pid as nat,
    ) + ",\n"@ + spaces(6) + "\"session_id\": "@ + json_quoted(s.session_id@) + ",\n"@ + spaces(6)
        + "\"status\": "@ + status_pretty(s.status) + ",\n"@ + spaces(6) + "\"total_output_bytes\": "@
        + decimal(s.total_output_bytes as nat) + ",\n"@ + spaces(6) + "\"uptime_s\": "@ + decimal(
        s.uptime_s as nat,
    ) + "\n"@ + spaces(4) + "}"@
}

/// The sessions, each indented and separated as a pretty JSON array.
pub open spec fn sessions_pretty(ss: Seq<SessionInfo>) -> Seq<char>
    decreases ss.len(),
{
    if ss.len() == 0 {
        Seq::empty()
    } else if ss.len() == 1 {
        spaces(4) + session_pretty(ss[0])
    } else {
        sessions_pretty(ss.drop_last()) + ",\n"@ + spaces(4) + session_pretty(ss.last())
    }
}

/// The `list` answer: `{"sessions": [...]}` as `serde_json`'s pretty
/// printer writes it (an empty list as `[]`).
pub open spec fn list_json_spec(ss: Seq<SessionInfo>) -> Seq<char> {
    if ss.len() == 0 {
        "{\n  \"sessions\": []\n}"@
    } else {
        "{\n  \"sessions\": [\n"@ + sessions_pretty(ss) + "\n  ]\n}"@
    }
}

fn push_spaces(m: &mut String, n: usize)
    ensures
        final(m)@ == old(m)@ + spaces(n as nat),
{
    let mut k: usize = 0;
    while k < n
        invariant
            k <= n,
            m@ == old(m)@ + spaces(k as nat),
        decreases n - k,
    {
        crate::text::push_char(m, ' ');
        proof {
            assert(m@ =~= old(m)@ + spaces((k + 1) as nat));
        }
        k = k + 1;
    }
}

fn session_text(s: &SessionInfo) -> (r: String)
    ensures
        r@ == session_pretty(*s),
{
    let mut m = String::from_str("{\n");
    push_spaces(&mut m, 6);
    m.append("\"command\": ");
    m.append(json_string(s.command.as_str()).as_str());
    m.append(",\n");
    push_spaces(&mut m, 6);
    m.append("\"idle_s\": ");
    m.append(u64_to_string(s.idle_s).as_str());
    m.append(",\n");
    push_spaces(&mut m, 6);
    m.append("\"pid\": ");
    m.append(u64_to_string(s.pid as u64).as_str());
    m.append(",\n");
    push_spaces(&mut m, 6);
    m.append("\"session_id\": ");
    m.append(json_string(s.session_id.as_str()).as_str());
    m.append(",\n");
    push_spaces(&mut m, 6);
    m.append("\"status\": ");
    m.append("{\n");
    push_spaces(&mut m, 8);
    match s.status {
        ProcessStatus::Running => {
            m.append("\"kind\": \"running\"\n");
        },
        ProcessStatus::Exited(c) => {
            m.append("\"code\": ");
            m.append(i64_to_string(c as i64).as_str());
            m.append(",\n");
            push_spaces(&mut m, 8);
            m.append("\"kind\": \"exited\"\n");
        },
    }
    push_spaces(&mut m, 6);
    m.append("}");
    m.append(",\n");
    push_spaces(&mut m, 6);
    m.append("\"total_output_bytes\": ");
    m.append(u64_to_string(s.total_output_bytes).as_str());
    m.append(",\n");
    push_spaces(&mut m, 6);
    m.append("\"uptime_s\": ");
    m.append(u64_to_string(s.uptime_s).as_str());
    m.append("\n");
    push_spaces(&mut m, 4);
    m.append("}");
    proof {
        assert(m@ =~= session_pretty(*s));
    }
    m
}

/// The `list` answer (see [`list_json_spec`]).
pub fn list_json(sessions: &Vec<SessionInfo>) -> (r: String)
    ensures
        r@ == list_json_spec(sessions@),
{
    if sessions.len() == 0 {
        return String::from_str("{\n  \"sessions\": []\n}");
    }
    let mut body = String::new();
    let mut i: usize = 0;
    while i < sessions.len()
        invariant
            i <= sessions@.len(),
            body@ == sessions_pretty(sessions@.take(i as int)),
        decreases sessions.len() - i,
    {
        proof {
            assert(sessions@.take(i + 1).drop_last() =~= sessions@.take(i as int));
        }
        if i > 0 {
            body.append(",\n");
        }
        push_spaces(&mut body, 4);
        body.append(session_text(&sessions[i]).as_str());
        proof {
            if i == 0 {
                assert(body@ =~= sessions_pretty(sessions@.take(1)));
            } else {
                assert(body@ =~= sessions_pretty(sessions@.take(i + 1)));
            }
        }
        i = i + 1;
    }
    proof {
        assert(sessions@.take(sessions@.len() as int) =~= sessions@);
    }
    let mut m = String::from_str("{\n  \"sessions\": [\n");
    m.append(body.as_str());
    m.append("\n  ]\n}");
    m
}

} // verus!
