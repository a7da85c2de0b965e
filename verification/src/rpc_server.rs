//! Portal's MCP server side: the pre-auth handshake of a TCP client, which
//! handler a JSON-RPC method goes to, and the fixed replies and messages.
use vstd::prelude::*;
use crate::json_text::{json_quoted, json_string};
use crate::kits::{join_strings, join_with};
use crate::numbers::{decimal, u64_to_string};
use crate::text::{views, same_text};

verus! {

/// JSON-RPC: invalid JSON.
pub const PARSE_ERROR: i32 = -32700;
/// JSON-RPC: no such method.
pub const METHOD_NOT_FOUND: i32 = -32601;
/// The first message of an authenticated connection was not `auth`.
pub const AUTH_REQUIRED: i32 = -32001;
/// The `auth` token is wrong.
pub const AUTH_INVALID: i32 = -32002;

/// The JSON-RPC methods Portal answers.
#[derive(Clone, Copy, Debug, PartialEq, Eq, Structural)]
pub enum McpMethod {
    Initialize,
    ToolsList,
    ToolsCall,
    Ping,
    Unknown,
}

/// The method a name selects.
pub open spec fn method_spec(name: Seq<char>) -> McpMethod {
    if name == "initialize"@ {
        McpMethod::Initialize
    } else if name == "tools/list"@ {
        McpMethod::ToolsList
    } else if name == "tools/call"@ {
        McpMethod::ToolsCall
    } else if name == "ping"@ {
        McpMethod::Ping
    } else {
        McpMethod::Unknown
    }
}


/// The handler of the method `name`.
pub fn method_of(name: &str) -> (r: McpMethod)
    ensures
        r == method_spec(name@),
{
    if same_text(name, "initialize") {
        McpMethod::Initialize
    } else if same_text(name, "tools/list") {
        McpMethod::ToolsList
    } else if same_text(name, "tools/call") {
        McpMethod::ToolsCall
    } else if same_text(name, "ping") {
        McpMethod::Ping
    } else {
        McpMethod::Unknown
    }
}

/// The `initialize` result: protocol version, tools without change
/// notifications, and the server's name and version (JSON, keys sorted).
pub open spec fn initialize_result_spec(portal_name: Seq<char>, version: Seq<char>) -> Seq<char> {
    "{\"capabilities\":{\"tools\":{\"listChanged\":false}},\"protocolVersion\":\"2024-11-05\",\"serverInfo\":{\"name\":"@
        + json_quoted("heart-portal-"@ + portal_name) + ",\"version\":"@ + json_quoted(version)
        + "}}"@
}

/// The JSON result of `initialize` for the Portal `portal_name` at `version`.
pub fn initialize_result(portal_name: &str, version: &str) -> (r: String)
    ensures
        r@ == initialize_result_spec(portal_name@, version@),
{
    let mut name = String::from_str("heart-portal-");
    name.append(portal_name);
    let mut out = String::from_str(
        "{\"capabilities\":{\"tools\":{\"listChanged\":false}},\"protocolVersion\":\"2024-11-05\",\"serverInfo\":{\"name\":",
    );
    out.append(json_string(name.as_str()).as_str());
    out.append(",\"version\":");
    out.append(json_string(version).as_str());
    out.append("}}");
    out
}

/// The error of an unknown method.
pub fn method_not_found(method: &str) -> (r: (i32, String))
    ensures
        r.0 == METHOD_NOT_FOUND,
        r.1@ == "Method not found: "@ + method@,
{
    let mut m = String::from_str("Method not found: ");
    m.append(method);
    (METHOD_NOT_FOUND, m)
}

/// The text of a tool result that failed with `error`.
pub fn tool_error_text(error: &str) -> (r: String)
    ensures
        r@ == "Tool error: "@ + error@,
{
    let mut m = String::from_str("Tool error: ");
    m.append(error);
    m
}

/// The message of a JSON parse error.
pub fn parse_error_message(detail: &str) -> (r: String)
    ensures
        r@ == "Parse error: "@ + detail@,
{
    let mut m = String::from_str("Parse error: ");
    m.append(detail);
    m
}

/// How the first message of a token-protected connection is answered.
#[derive(Clone, Copy, Debug, PartialEq, Eq, Structural)]
pub enum AuthOutcome {
    /// Reply `{"authenticated": true}` and serve the connection.
    Accepted,
    /// Reply with `AUTH_REQUIRED` and close: the message was not `auth`.
    NotAuth,
    /// Reply with `AUTH_INVALID` and close: the token is wrong.
    BadToken,
}

/// Judges the first message: it must be the `auth` method carrying the
/// expected token (a missing method or token counts as empty).
pub fn auth_outcome(method: &str, token: &str, expected: &str) -> (r: AuthOutcome)
    ensures
        method@ != "auth"@ ==> r == AuthOutcome::NotAuth,
        method@ == "auth"@ && token@ != expected@ ==> r == AuthOutcome::BadToken,
        method@ == "auth"@ && token@ == expected@ ==> r == AuthOutcome::Accepted,
{
    if !same_text(method, "auth") {
        AuthOutcome::NotAuth
    } else if !same_text(token, expected) {
        AuthOutcome::BadToken
    } else {
        AuthOutcome::Accepted
    }
}

/// The JSON-RPC error of a refused `auth`.
pub fn auth_error(outcome: AuthOutcome) -> (r: Option<(i32, &'static str)>)
    ensures
        outcome == AuthOutcome::Accepted ==> r is None,
        outcome == AuthOutcome::NotAuth ==> r == Some((
            AUTH_REQUIRED,
            "Unauthorized: first message must be {\"method\":\"auth\",\"params\":{\"token\":\"...\"}}",
        )),
        outcome == AuthOutcome::BadToken ==> r == Some((AUTH_INVALID, "Unauthorized: invalid token")),
{
    match outcome {
        AuthOutcome::Accepted => None,
        AuthOutcome::NotAuth => Some(
            (
                AUTH_REQUIRED,
                "Unauthorized: first message must be {\"method\":\"auth\",\"params\":{\"token\":\"...\"}}",
            ),
        ),
        AuthOutcome::BadToken => Some((AUTH_INVALID, "Unauthorized: invalid token")),
    }
}

/// Whether a connection must authenticate first: a non-empty token is configured.
pub fn auth_required(expected_token: Option<&str>) -> (r: bool)
    ensures
        r == (expected_token matches Some(t) && t@.len() > 0),
{
    match expected_token {
        Some(t) => !t.is_empty(),
        None => false,
    }
}

/// What the connection loop does with one trimmed line.
#[derive(Clone, Copy, Debug, PartialEq, Eq, Structural)]
pub enum LineAction {
    /// A blank line: read on.
    Skip,
    /// Not a JSON-RPC request: answer with a parse error, read on.
    ParseError,
    /// A notification (no id): read on without answering.
    Notification,
    /// A request: answer it.
    Respond,
}

/// The action for a line that is blank or not, parsed or not, with or
/// without an id.
pub fn line_action(blank: bool, parsed: bool, has_id: bool) -> (r: LineAction)
    ensures
        r == if blank {
            LineAction::Skip
        } else if !parsed {
            LineAction::ParseError
        } else if !has_id {
            LineAction::Notification
        } else {
            LineAction::Respond
        },
{
    if blank {
        LineAction::Skip
    } else if !parsed {
        LineAction::ParseError
    } else if !has_id {
        LineAction::Notification
    } else {
        LineAction::Respond
    }
}

/// The body of the HTTP health endpoint. The name and version are inserted
/// as they are.
pub fn health_body(name: &str, version: &str) -> (r: String)
    ensures
        r@ == "{\"status\":\"ok\",\"name\":\""@ + name@ + "\",\"version\":\""@ + version@ + "\"}"@,
{
    let mut b = String::from_str("{\"status\":\"ok\",\"name\":\"");
    b.append(name);
    b.append("\",\"version\":\"");
    b.append(version);
    b.append("\"}");
    b
}

/// The HTTP response carrying the JSON `body`, with its byte length.
pub fn health_response(body: &str) -> (r: String)
    ensures
        r@ == "HTTP/1.1 200 OK\r\nContent-Type: application/json\r\nContent-Length: "@ + decimal(
            crate::text::utf8_len(body@),
        ) + "\r\n\r\n"@ + body@,
{
    let n = body.as_bytes().len();
    let mut r = String::from_str("HTTP/1.1 200 OK\r\nContent-Type: application/json\r\nContent-Length: ");
    r.append(u64_to_string(n as u64).as_str());
    r.append("\r\n\r\n");
    r.append(body);
    r
}

/// The reply of `portal_restart`: whether a restart was already scheduled.
pub fn restart_reply(already_scheduled: bool) -> (r: &'static str)
    ensures
        already_scheduled ==> r@ == "Portal restart is already scheduled."@,
        !already_scheduled ==> r@
            == "Portal restart scheduled. The supervisor will relaunch it with the same name and load updated kits."@,
{
    if already_scheduled {
        "Portal restart is already scheduled."
    } else {
        "Portal restart scheduled. The supervisor will relaunch it with the same name and load updated kits."
    }
}

/// The refusal of `portal_restart` when no supervisor would restart Portal.
pub fn restart_unavailable() -> (r: &'static str)
    ensures
        r@ == "Portal restart is unavailable because no external supervisor is configured"@,
{
    "Portal restart is unavailable because no external supervisor is configured"
}

/// The reply of `portal_tools_reload` after `names` were loaded.
pub fn reload_message(names: &Vec<String>) -> (r: String)
    ensures
        names@.len() == 0 ==> r@ == "Reloaded. No custom tools found in workspace/tools/mcp.toml."@,
        names@.len() > 0 ==> r@ == "Reloaded "@ + decimal(names@.len()) + " custom tools: "@
            + join_with(views(names@), ", "@) + ". Connection will reset to apply changes."@,
{
    if names.len() == 0 {
        String::from_str("Reloaded. No custom tools found in workspace/tools/mcp.toml.")
    } else {
        let mut m = String::from_str("Reloaded ");
        m.append(u64_to_string(names.len() as u64).as_str());
        m.append(" custom tools: ");
        m.append(join_strings(names, ", ").as_str());
        m.append(". Connection will reset to apply changes.");
        m
    }
}

/// The reply of `portal_tools_reload` when reloading failed with `error`.
pub fn reload_failed_message(error: &str) -> (r: String)
    ensures
        r@ == "Reload failed: "@ + error@,
{
    let mut m = String::from_str("Reload failed: ");
    m.append(error);
    m
}

/// Whether the environment value of `HEART_PORTAL_SUPERVISED` means an
/// external supervisor restarts Portal: `1`, or `true` in any ASCII case.
pub fn supervised_flag(value: Option<&str>) -> (r: bool)
    ensures
        r == (value matches Some(v) && (v@ == "1"@ || crate::file_tools::eq_ignore_case(v@, "true"@))),
{
    match value {
        None => false,
        Some(v) => {
            if same_text(v, "1") {
                return true;
            }
            let cs = crate::text::chars_of(v);
            proof {
                reveal_strlit("true");
            }
            if cs.len() != 4 {
                return false;
            }
            let t = (cs[0] == 't' || cs[0] == 'T') && (cs[1] == 'r' || cs[1] == 'R') && (cs[2]
                == 'u' || cs[2] == 'U') && (cs[3] == 'e' || cs[3] == 'E');
            proof {
                let w = "true"@;
                assert(w[0] == 't' && w[1] == 'r' && w[2] == 'u' && w[3] == 'e');
                if t {
                    assert forall|i: int| 0 <= i < 4 implies crate::file_tools::ascii_lower(
                        #[trigger] cs@[i],
                    ) == w[i] by {
                        vstd::utf8::char_u32_cast(cs@[i], cs@[i] as u32);
                    }
                } else if crate::file_tools::eq_ignore_case(cs@, w) {
                    assert(crate::file_tools::ascii_lower(cs@[0]) == w[0]);
                    assert(crate::file_tools::ascii_lower(cs@[1]) == w[1]);
                    assert(crate::file_tools::ascii_lower(cs@[2]) == w[2]);
                    assert(crate::file_tools::ascii_lower(cs@[3]) == w[3]);
                    vstd::utf8::char_u32_cast(cs@[0], cs@[0] as u32);
                    vstd::utf8::char_u32_cast(cs@[1], cs@[1] as u32);
                    vstd::utf8::char_u32_cast(cs@[2], cs@[2] as u32);
                    vstd::utf8::char_u32_cast(cs@[3], cs@[3] as u32);
                }
            }
            t
        },
    }
}

} // verus!
