//! The built-in tools Portal offers: which are listed for a configuration,
//! what each is called and takes, and where a call is routed.
use vstd::prelude::*;
use crate::config::ToolsConfig;
use crate::numbers::{decimal, u64_to_string};

verus! {

/// Description of `portal_exec`.
pub const EXEC_DESCRIPTION: &'static str = "Execute a shell command. With background=true it returns a session_id immediately and, when the task finishes, Portal notifies you automatically — you will be woken with the exit code and output, so you can let go of it instead of polling. Prefer background=true for anything slow (builds, tests, long downloads).";
/// Input schema of `portal_exec`, as JSON text.
pub const EXEC_SCHEMA: &'static str = "{\"type\":\"object\",\"properties\":{\"command\":{\"type\":\"string\",\"description\":\"Shell command to execute\"},\"shell\":{\"type\":\"string\",\"enum\":[\"default\",\"powershell\"],\"description\":\"default: cmd.exe on Windows, sh elsewhere. powershell: Windows PowerShell with UTF-8 output and text file defaults; pass PowerShell script directly. Works in foreground and background.\"},\"workdir\":{\"type\":\"string\",\"description\":\"Working directory (optional)\"},\"timeout_secs\":{\"type\":\"integer\",\"description\":\"Timeout in seconds (default: 30, sync mode only)\"},\"background\":{\"type\":\"boolean\",\"description\":\"If true, spawn in background and return session_id + pid (default: false)\"}},\"required\":[\"command\"]}";

/// Description of `portal_process`.
pub const PROCESS_DESCRIPTION: &'static str = "Manage background shell sessions: list, poll output, log, write stdin, kill. Responses include idle_s (seconds since last stdout/stderr) and total_output_bytes so you can tell silence from steady output. Background tasks notify you on their own when they finish, so polling is optional. 'kill' ends a session deliberately and suppresses that completion notification.";
/// Input schema of `portal_process`, as JSON text.
pub const PROCESS_SCHEMA: &'static str = "{\"type\":\"object\",\"properties\":{\"action\":{\"type\":\"string\",\"description\":\"list | poll | log | write | kill\",\"enum\":[\"list\",\"poll\",\"log\",\"write\",\"kill\"]},\"session_id\":{\"type\":\"string\",\"description\":\"Session id (required for poll, log, write, kill)\"},\"timeout_ms\":{\"type\":\"integer\",\"description\":\"poll: wait up to this many ms for new output (default 5000, max 300000)\"},\"offset\":{\"type\":\"integer\",\"description\":\"Byte offset into captured output (poll/log)\"},\"limit\":{\"type\":\"integer\",\"description\":\"Max bytes for log\"},\"data\":{\"type\":\"string\",\"description\":\"Data to write to stdin (write action, max 256KiB)\"}},\"required\":[\"action\"]}";

/// Description of `portal_web_fetch`.
pub const WEB_FETCH_DESCRIPTION: &'static str = "Fetch content from a URL";
/// Input schema of `portal_web_fetch`, as JSON text.
pub const WEB_FETCH_SCHEMA: &'static str = "{\"type\":\"object\",\"properties\":{\"url\":{\"type\":\"string\",\"description\":\"URL to fetch\"},\"max_chars\":{\"type\":\"integer\",\"description\":\"Maximum characters to return (default: 50000)\"}},\"required\":[\"url\"]}";

/// Description of `portal_web_search`.
pub const WEB_SEARCH_DESCRIPTION: &'static str = "Search the web. Returns titles, URLs, and snippets.";
/// Input schema of `portal_web_search`, as JSON text.
pub const WEB_SEARCH_SCHEMA: &'static str = "{\"type\":\"object\",\"properties\":{\"query\":{\"type\":\"string\",\"description\":\"Search query\"},\"count\":{\"type\":\"integer\",\"description\":\"Number of results (default 5, max 10)\"}},\"required\":[\"query\"]}";

/// Description of `portal_file_read`.
pub const FILE_READ_DESCRIPTION: &'static str = "Read file contents. Returns text for text files, base64 for images. For large files, use offset (0-based line number) and limit to read specific sections instead of portal_exec head/tail.";
/// Input schema of `portal_file_read`, as JSON text.
pub const FILE_READ_SCHEMA: &'static str = "{\"type\":\"object\",\"properties\":{\"path\":{\"type\":\"string\",\"description\":\"File path (relative to workspace root)\"},\"offset\":{\"type\":\"integer\",\"description\":\"Start reading from this line number (0-based, default: 0). Use with limit for large files.\"},\"limit\":{\"type\":\"integer\",\"description\":\"Maximum number of lines to return. Omit to read all remaining lines from offset.\"}},\"required\":[\"path\"]}";

/// Description of `portal_file_write`.
pub const FILE_WRITE_DESCRIPTION: &'static str = "Write content to a file (creates parent dirs automatically). THE preferred way to write files — no shell escaping issues.\n\nModes:\n- Default: overwrite file with content\n- append=true: add to end of existing file\n- encoding=\"base64\": decode base64 content before writing (for binary files)\n- unescape=true: process escape sequences (\\n to newline, \\t to tab). Default: content written as-is";
/// Input schema of `portal_file_write`, as JSON text.
pub const FILE_WRITE_SCHEMA: &'static str = "{\"type\":\"object\",\"properties\":{\"path\":{\"type\":\"string\",\"description\":\"File path (relative to workspace root)\"},\"content\":{\"type\":\"string\",\"description\":\"File content. Use real newlines — they pass through correctly. No need for \\\\n or base64 workarounds for text files.\"},\"append\":{\"type\":\"boolean\",\"description\":\"If true, append to file instead of overwriting (default: false)\"},\"encoding\":{\"type\":\"string\",\"description\":\"Content encoding: utf8 (default) or base64 (decode before writing, for binary files)\"},\"unescape\":{\"type\":\"boolean\",\"description\":\"If true, process escape sequences (\\n→newline, \\t→tab). Default: false (content written as-is).\"}},\"required\":[\"path\",\"content\"]}";

/// Description of `portal_file_edit`.
pub const FILE_EDIT_DESCRIPTION: &'static str = "Find and replace exact text in a file. Safer than sed — no shell escaping issues. Shows line-numbered context after replacement.\n\nBehavior:\n- Single match: replaces it, shows surrounding context\n- Multiple matches with count=1 (default): errors asking for more specific text\n- count=-1: replace ALL occurrences";
/// Input schema of `portal_file_edit`, as JSON text.
pub const FILE_EDIT_SCHEMA: &'static str = "{\"type\":\"object\",\"properties\":{\"path\":{\"type\":\"string\",\"description\":\"File path (relative to workspace root)\"},\"old_text\":{\"type\":\"string\",\"description\":\"Exact text to find (multi-line supported with real newlines)\"},\"new_text\":{\"type\":\"string\",\"description\":\"Replacement text\"},\"count\":{\"type\":\"integer\",\"description\":\"How many occurrences to replace (default: 1). Use -1 for all. If 1 and multiple matches found, will error asking for more context.\"},\"unescape\":{\"type\":\"boolean\",\"description\":\"If true, process escape sequences in old_text/new_text (\\n→newline, \\t→tab). Default: false (match/replace as-is).\"}},\"required\":[\"path\",\"old_text\",\"new_text\"]}";

/// Description of `portal_file_list`.
pub const FILE_LIST_DESCRIPTION: &'static str = "List files and directories. Returns JSON array with name, size, is_dir, modified (unix timestamp) for each entry.";
/// Input schema of `portal_file_list`, as JSON text.
pub const FILE_LIST_SCHEMA: &'static str = "{\"type\":\"object\",\"properties\":{\"path\":{\"type\":\"string\",\"description\":\"Directory path (relative to workspace root)\"}},\"required\":[\"path\"]}";

/// Description of `portal_screenshot`.
pub const SCREENSHOT_DESCRIPTION: &'static str = "Capture a screenshot of the screen or a specific window/region";
/// Input schema of `portal_screenshot`, as JSON text.
pub const SCREENSHOT_SCHEMA: &'static str = "{\"type\":\"object\",\"properties\":{\"path\":{\"type\":\"string\",\"description\":\"Output file path (relative to workspace). Defaults to '.screenshots/capture-<timestamp>.png'\"},\"region\":{\"type\":\"string\",\"description\":\"Capture region: 'full' (entire screen), 'window' (frontmost window), or 'x,y,w,h' (rectangle). Default: 'full'\"},\"display\":{\"type\":\"integer\",\"description\":\"Display number for multi-monitor (0-indexed). Default: main display\"}}}";

/// Description of `portal_search`.
pub const SEARCH_DESCRIPTION: &'static str = "Recursively search text files under the workspace for a regex pattern (ripgrep-style Rust regex).";
/// Input schema of `portal_search`, as JSON text.
pub const SEARCH_SCHEMA: &'static str = "{\"type\":\"object\",\"properties\":{\"pattern\":{\"type\":\"string\",\"description\":\"Rust regex pattern to match against each line\"},\"path\":{\"type\":\"string\",\"description\":\"Subdirectory or file to search under workspace root (default: entire workspace)\"},\"max_matches\":{\"type\":\"integer\",\"description\":\"Maximum matches to return (default 200, max 2000)\"}},\"required\":[\"pattern\"]}";

/// Description of `portal_oauth_authorize`.
pub const OAUTH_AUTHORIZE_DESCRIPTION: &'static str = "Start OAuth Authorization Code + PKCE flow. Opens browser for user authorization and returns tokens.";
/// Input schema of `portal_oauth_authorize`, as JSON text.
pub const OAUTH_AUTHORIZE_SCHEMA: &'static str = "{\"type\":\"object\",\"properties\":{\"provider\":{\"type\":\"string\",\"enum\":[\"openai\"],\"description\":\"OAuth provider\"},\"timeout_secs\":{\"type\":\"integer\",\"description\":\"Timeout in seconds (default 120)\",\"default\":120}},\"required\":[\"provider\"]}";

/// Description of `portal_tools_reload`.
pub const TOOLS_RELOAD_DESCRIPTION: &'static str = "Reload custom tools from workspace/tools/mcp.toml. Call after adding or modifying custom tool scripts.";
/// Input schema of `portal_tools_reload`, as JSON text.
pub const TOOLS_RELOAD_SCHEMA: &'static str = "{\"type\":\"object\",\"properties\":{},\"required\":[]}";

/// Description of `portal_restart`.
pub const RESTART_DESCRIPTION: &'static str = "Gracefully exit Portal after returning a response so its OS supervisor can restart it with the same name and load updated kits. Use this instead of taskkill or starting another supervisor.";
/// Input schema of `portal_restart`, as JSON text.
pub const RESTART_SCHEMA: &'static str = "{\"type\":\"object\",\"properties\":{},\"required\":[]}";

/// Description of `portal_kit_usage`.
pub const KIT_USAGE_DESCRIPTION: &'static str = "Returns accumulated call counts per kit since last drain, then resets counters to zero";
/// Input schema of `portal_kit_usage`, as JSON text.
pub const KIT_USAGE_SCHEMA: &'static str = "{\"type\":\"object\",\"properties\":{},\"required\":[]}";

/// A built-in tool.
#[derive(Clone, Copy, Debug, PartialEq, Eq, Structural)]
pub enum BuiltinTool {
    Exec,
    Process,
    WebFetch,
    WebSearch,
    FileRead,
    FileWrite,
    FileEdit,
    FileList,
    Screenshot,
    Search,
    OauthAuthorize,
    ToolsReload,
    Restart,
    KitUsage,
}

/// Tool metadata for a `tools/list` response; the input schema is JSON text.
#[derive(Clone, Debug)]
pub struct ToolInfo {
    pub name: String,
    pub description: String,
    pub input_schema: String,
}

/// The name a built-in tool is listed and called by.
pub open spec fn tool_name(t: BuiltinTool) -> Seq<char> {
    match t {
            BuiltinTool::Exec => "portal_exec"@,
            BuiltinTool::Process => "portal_process"@,
            BuiltinTool::WebFetch => "portal_web_fetch"@,
            BuiltinTool::WebSearch => "portal_web_search"@,
            BuiltinTool::FileRead => "portal_file_read"@,
            BuiltinTool::FileWrite => "portal_file_write"@,
            BuiltinTool::FileEdit => "portal_file_edit"@,
            BuiltinTool::FileList => "portal_file_list"@,
            BuiltinTool::Screenshot => "portal_screenshot"@,
            BuiltinTool::Search => "portal_search"@,
            BuiltinTool::OauthAuthorize => "portal_oauth_authorize"@,
            BuiltinTool::ToolsReload => "portal_tools_reload"@,
            BuiltinTool::Restart => "portal_restart"@,
            BuiltinTool::KitUsage => "portal_kit_usage"@,
    }
}

/// The description a built-in tool is listed with.
pub open spec fn tool_description(t: BuiltinTool) -> Seq<char> {
    match t {
            BuiltinTool::Exec => EXEC_DESCRIPTION@,
            BuiltinTool::Process => PROCESS_DESCRIPTION@,
            BuiltinTool::WebFetch => WEB_FETCH_DESCRIPTION@,
            BuiltinTool::WebSearch => WEB_SEARCH_DESCRIPTION@,
            BuiltinTool::FileRead => FILE_READ_DESCRIPTION@,
            BuiltinTool::FileWrite => FILE_WRITE_DESCRIPTION@,
            BuiltinTool::FileEdit => FILE_EDIT_DESCRIPTION@,
            BuiltinTool::FileList => FILE_LIST_DESCRIPTION@,
            BuiltinTool::Screenshot => SCREENSHOT_DESCRIPTION@,
            BuiltinTool::Search => SEARCH_DESCRIPTION@,
            BuiltinTool::OauthAuthorize => OAUTH_AUTHORIZE_DESCRIPTION@,
            BuiltinTool::ToolsReload => TOOLS_RELOAD_DESCRIPTION@,
            BuiltinTool::Restart => RESTART_DESCRIPTION@,
            BuiltinTool::KitUsage => KIT_USAGE_DESCRIPTION@,
    }
}

/// The input schema (JSON text) a built-in tool is listed with.
pub open spec fn tool_schema(t: BuiltinTool) -> Seq<char> {
    match t {
            BuiltinTool::Exec => EXEC_SCHEMA@,
            BuiltinTool::Process => PROCESS_SCHEMA@,
            BuiltinTool::WebFetch => WEB_FETCH_SCHEMA@,
            BuiltinTool::WebSearch => WEB_SEARCH_SCHEMA@,
            BuiltinTool::FileRead => FILE_READ_SCHEMA@,
            BuiltinTool::FileWrite => FILE_WRITE_SCHEMA@,
            BuiltinTool::FileEdit => FILE_EDIT_SCHEMA@,
            BuiltinTool::FileList => FILE_LIST_SCHEMA@,
            BuiltinTool::Screenshot => SCREENSHOT_SCHEMA@,
            BuiltinTool::Search => SEARCH_SCHEMA@,
            BuiltinTool::OauthAuthorize => OAUTH_AUTHORIZE_SCHEMA@,
            BuiltinTool::ToolsReload => TOOLS_RELOAD_SCHEMA@,
            BuiltinTool::Restart => RESTART_SCHEMA@,
            BuiltinTool::KitUsage => KIT_USAGE_SCHEMA@,
    }
}

/// `info` lists the built-in tool `t`.
pub open spec fn describes(info: ToolInfo, t: BuiltinTool) -> bool {
    &&& info.name@ == tool_name(t)
    &&& info.description@ == tool_description(t)
    &&& info.input_schema@ == tool_schema(t)
}

/// The name of `t`.
pub fn builtin_name(t: BuiltinTool) -> (r: &'static str)
    ensures
        r@ == tool_name(t),
{
    match t {
            BuiltinTool::Exec => "portal_exec",
            BuiltinTool::Process => "portal_process",
            BuiltinTool::WebFetch => "portal_web_fetch",
            BuiltinTool::WebSearch => "portal_web_search",
            BuiltinTool::FileRead => "portal_file_read",
            BuiltinTool::FileWrite => "portal_file_write",
            BuiltinTool::FileEdit => "portal_file_edit",
            BuiltinTool::FileList => "portal_file_list",
            BuiltinTool::Screenshot => "portal_screenshot",
            BuiltinTool::Search => "portal_search",
            BuiltinTool::OauthAuthorize => "portal_oauth_authorize",
            BuiltinTool::ToolsReload => "portal_tools_reload",
            BuiltinTool::Restart => "portal_restart",
            BuiltinTool::KitUsage => "portal_kit_usage",
    }
}

/// The listing of `t`.
pub fn tool_info(t: BuiltinTool) -> (r: ToolInfo)
    ensures
        describes(r, t),
{
    let description = match t {
            BuiltinTool::Exec => EXEC_DESCRIPTION,
            BuiltinTool::Process => PROCESS_DESCRIPTION,
            BuiltinTool::WebFetch => WEB_FETCH_DESCRIPTION,
            BuiltinTool::WebSearch => WEB_SEARCH_DESCRIPTION,
            BuiltinTool::FileRead => FILE_READ_DESCRIPTION,
            BuiltinTool::FileWrite => FILE_WRITE_DESCRIPTION,
            BuiltinTool::FileEdit => FILE_EDIT_DESCRIPTION,
            BuiltinTool::FileList => FILE_LIST_DESCRIPTION,
            BuiltinTool::Screenshot => SCREENSHOT_DESCRIPTION,
            BuiltinTool::Search => SEARCH_DESCRIPTION,
            BuiltinTool::OauthAuthorize => OAUTH_AUTHORIZE_DESCRIPTION,
            BuiltinTool::ToolsReload => TOOLS_RELOAD_DESCRIPTION,
            BuiltinTool::Restart => RESTART_DESCRIPTION,
            BuiltinTool::KitUsage => KIT_USAGE_DESCRIPTION,
    };
    let input_schema = match t {
            BuiltinTool::Exec => EXEC_SCHEMA,
            BuiltinTool::Process => PROCESS_SCHEMA,
            BuiltinTool::WebFetch => WEB_FETCH_SCHEMA,
            BuiltinTool::WebSearch => WEB_SEARCH_SCHEMA,
            BuiltinTool::FileRead => FILE_READ_SCHEMA,
            BuiltinTool::FileWrite => FILE_WRITE_SCHEMA,
            BuiltinTool::FileEdit => FILE_EDIT_SCHEMA,
            BuiltinTool::FileList => FILE_LIST_SCHEMA,
            BuiltinTool::Screenshot => SCREENSHOT_SCHEMA,
            BuiltinTool::Search => SEARCH_SCHEMA,
            BuiltinTool::OauthAuthorize => OAUTH_AUTHORIZE_SCHEMA,
            BuiltinTool::ToolsReload => TOOLS_RELOAD_SCHEMA,
            BuiltinTool::Restart => RESTART_SCHEMA,
            BuiltinTool::KitUsage => KIT_USAGE_SCHEMA,
    };
    ToolInfo {
        name: String::from_str(builtin_name(t)),
        description: String::from_str(description),
        input_schema: String::from_str(input_schema),
    }
}

/// What decides which built-in tools are offered.
#[derive(Clone, Copy, Debug, PartialEq, Eq, Structural)]
pub struct CatalogFlags {
    pub tools: ToolsConfig,
    /// An external supervisor restarts Portal when it exits.
    pub restart_supported: bool,
    pub kits_enabled: bool,
}

/// `s` when `on`, else nothing.
pub open spec fn when(on: bool, s: Seq<BuiltinTool>) -> Seq<BuiltinTool> {
    if on {
        s
    } else {
        Seq::empty()
    }
}

/// The built-in tools offered under `f`, in listing order: exec and process
/// with `exec`, fetch and search of the web with `web_fetch`, the four file
/// tools with `file`, screenshot, workspace search, then OAuth and the reload
/// tool always, restart when supervised, kit usage when kits are enabled.
pub open spec fn builtin_tools(f: CatalogFlags) -> Seq<BuiltinTool> {
    when(f.tools.exec_tool, seq![BuiltinTool::Exec, BuiltinTool::Process]) + when(
        f.tools.web_fetch,
        seq![BuiltinTool::WebFetch, BuiltinTool::WebSearch],
    ) + when(
        f.tools.file,
        seq![BuiltinTool::FileRead, BuiltinTool::FileWrite, BuiltinTool::FileEdit, BuiltinTool::FileList],
    ) + when(f.tools.screenshot, seq![BuiltinTool::Screenshot]) + when(
        f.tools.search,
        seq![BuiltinTool::Search],
    ) + seq![BuiltinTool::OauthAuthorize, BuiltinTool::ToolsReload] + when(
        f.restart_supported,
        seq![BuiltinTool::Restart],
    ) + when(f.kits_enabled, seq![BuiltinTool::KitUsage])
}

/// `out` lists exactly the tools `ts`, in order.
pub open spec fn lists(out: Seq<ToolInfo>, ts: Seq<BuiltinTool>) -> bool {
    &&& out.len() == ts.len()
    &&& forall|i: int| 0 <= i < ts.len() ==> describes(#[trigger] out[i], ts[i])
}

proof fn lemma_lists_push(out: Seq<ToolInfo>, ts: Seq<BuiltinTool>, out2: Seq<ToolInfo>, t: BuiltinTool)
    requires
        lists(out, ts),
        out2.len() == out.len() + 1,
        forall|i: int| 0 <= i < out.len() ==> out2[i] == out[i],
        describes(out2.last(), t),
    ensures
        lists(out2, ts.push(t)),
{
    assert forall|i: int| 0 <= i < ts.push(t).len() implies describes(
        #[trigger] out2[i],
        ts.push(t)[i],
    ) by {
        if i < ts.len() {
            assert(out2[i] == out[i]);
        }
    }
}

/// Appends the listing of `t` to `out`.
fn push_tool(out: &mut Vec<ToolInfo>, t: BuiltinTool, Ghost(ts): Ghost<Seq<BuiltinTool>>)
    requires
        lists(old(out)@, ts),
    ensures
        lists(final(out)@, ts.push(t)),
{
    let ghost before = out@;
    out.push(tool_info(t));
    proof {
        lemma_lists_push(before, ts, out@, t);
    }
}

/// The built-in tools offered under `flags`, with their listings.
pub fn list_builtin_tools(flags: &CatalogFlags) -> (r: Vec<ToolInfo>)
    ensures
        lists(r@, builtin_tools(*flags)),
{
    let mut out: Vec<ToolInfo> = Vec::new();
    let ghost mut ts: Seq<BuiltinTool> = Seq::empty();
    if flags.tools.exec_tool {
        push_tool(&mut out, BuiltinTool::Exec, Ghost(ts));
        proof { ts = ts.push(BuiltinTool::Exec); }
        push_tool(&mut out, BuiltinTool::Process, Ghost(ts));
        proof { ts = ts.push(BuiltinTool::Process); }
    }
    assert(ts =~= when(flags.tools.exec_tool, seq![BuiltinTool::Exec, BuiltinTool::Process]));
    let ghost t1 = ts;
    if flags.tools.web_fetch {
        push_tool(&mut out, BuiltinTool::WebFetch, Ghost(ts));
        proof { ts = ts.push(BuiltinTool::WebFetch); }
        push_tool(&mut out, BuiltinTool::WebSearch, Ghost(ts));
        proof { ts = ts.push(BuiltinTool::WebSearch); }
    }
    assert(ts =~= t1 + when(flags.tools.web_fetch, seq![BuiltinTool::WebFetch, BuiltinTool::WebSearch]));
    let ghost t2 = ts;
    if flags.tools.file {
        push_tool(&mut out, BuiltinTool::FileRead, Ghost(ts));
        proof { ts = ts.push(BuiltinTool::FileRead); }
        push_tool(&mut out, BuiltinTool::FileWrite, Ghost(ts));
        proof { ts = ts.push(BuiltinTool::FileWrite); }
        push_tool(&mut out, BuiltinTool::FileEdit, Ghost(ts));
        proof { ts = ts.push(BuiltinTool::FileEdit); }
        push_tool(&mut out, BuiltinTool::FileList, Ghost(ts));
        proof { ts = ts.push(BuiltinTool::FileList); }
    }
    assert(ts =~= t2 + when(
        flags.tools.file,
        seq![BuiltinTool::FileRead, BuiltinTool::FileWrite, BuiltinTool::FileEdit, BuiltinTool::FileList],
    ));
    let ghost t3 = ts;
    if flags.tools.screenshot {
        push_tool(&mut out, BuiltinTool::Screenshot, Ghost(ts));
        proof { ts = ts.push(BuiltinTool::Screenshot); }
    }
    assert(ts =~= t3 + when(flags.tools.screenshot, seq![BuiltinTool::Screenshot]));
    let ghost t4 = ts;
    if flags.tools.search {
        push_tool(&mut out, BuiltinTool::Search, Ghost(ts));
        proof { ts = ts.push(BuiltinTool::Search); }
    }
    assert(ts =~= t4 + when(flags.tools.search, seq![BuiltinTool::Search]));
    let ghost t5 = ts;
    push_tool(&mut out, BuiltinTool::OauthAuthorize, Ghost(ts));
    proof { ts = ts.push(BuiltinTool::OauthAuthorize); }
    push_tool(&mut out, BuiltinTool::ToolsReload, Ghost(ts));
    proof { ts = ts.push(BuiltinTool::ToolsReload); }
    assert(ts =~= t5 + seq![BuiltinTool::OauthAuthorize, BuiltinTool::ToolsReload]);
    let ghost t6 = ts;
    if flags.restart_supported {
        push_tool(&mut out, BuiltinTool::Restart, Ghost(ts));
        proof { ts = ts.push(BuiltinTool::Restart); }
    }
    assert(ts =~= t6 + when(flags.restart_supported, seq![BuiltinTool::Restart]));
    let ghost t7 = ts;
    if flags.kits_enabled {
        push_tool(&mut out, BuiltinTool::KitUsage, Ghost(ts));
        proof { ts = ts.push(BuiltinTool::KitUsage); }
    }
    assert(ts =~= t7 + when(flags.kits_enabled, seq![BuiltinTool::KitUsage]));
    assert(ts =~= builtin_tools(*flags));
    out
}

/// The built-in tool named `name`, if any.
pub open spec fn builtin_by_name(name: Seq<char>) -> Option<BuiltinTool> {
    if exists|t: BuiltinTool| tool_name(t) == name {
        Some(choose|t: BuiltinTool| tool_name(t) == name)
    } else {
        None
    }
}

/// Where a tool call goes.
#[derive(Clone, Copy, Debug, PartialEq, Eq, Structural)]
pub enum CallRoute {
    /// A custom tool of the workspace.
    Custom,
    /// A tool of an installed kit.
    Kit,
    /// A built-in tool.
    Builtin(BuiltinTool),
}

/// Why a tool call was refused before it ran.
#[derive(Clone, Debug)]
pub enum RouteError {
    /// The tool is switched off in the configuration.
    Disabled(BuiltinTool),
    /// No tool has this name.
    Unknown { name: String },
}

impl RouteError {
    /// The message shown to the caller.
    pub fn message(&self) -> (r: String)
        ensures
            self matches RouteError::Disabled(t) ==> r@ == tool_name(*t)
                + " is disabled in configuration"@,
            self matches RouteError::Unknown { name } ==> r@ == "Unknown tool: "@ + name@,
    {
        match self {
            RouteError::Disabled(t) => {
                let mut m = String::from_str(builtin_name(*t));
                m.append(" is disabled in configuration");
                m
            },
            RouteError::Unknown { name } => {
                let mut m = String::from_str("Unknown tool: ");
                m.append(name.as_str());
                m
            },
        }
    }
}

/// Whether calling the built-in `t` is switched off by `tools`: exec and
/// process follow `exec`, screenshot follows `screenshot`; the others are
/// always callable.
pub open spec fn call_disabled(t: BuiltinTool, tools: ToolsConfig) -> bool {
    match t {
        BuiltinTool::Exec => !tools.exec_tool,
        BuiltinTool::Process => !tools.exec_tool,
        BuiltinTool::Screenshot => !tools.screenshot,
        _ => false,
    }
}

/// Every built-in tool, in listing order.
pub open spec fn all_builtin_tools() -> Seq<BuiltinTool> {
    seq![
        BuiltinTool::Exec,
        BuiltinTool::Process,
        BuiltinTool::WebFetch,
        BuiltinTool::WebSearch,
        BuiltinTool::FileRead,
        BuiltinTool::FileWrite,
        BuiltinTool::FileEdit,
        BuiltinTool::FileList,
        BuiltinTool::Screenshot,
        BuiltinTool::Search,
        BuiltinTool::OauthAuthorize,
        BuiltinTool::ToolsReload,
        BuiltinTool::Restart,
        BuiltinTool::KitUsage,
    ]
}

proof fn lemma_all_builtin_tools(t: BuiltinTool)
    ensures
        all_builtin_tools().contains(t),
{
    match t {
        BuiltinTool::Exec => assert(all_builtin_tools()[0] == t),
        BuiltinTool::Process => assert(all_builtin_tools()[1] == t),
        BuiltinTool::WebFetch => assert(all_builtin_tools()[2] == t),
        BuiltinTool::WebSearch => assert(all_builtin_tools()[3] == t),
        BuiltinTool::FileRead => assert(all_builtin_tools()[4] == t),
        BuiltinTool::FileWrite => assert(all_builtin_tools()[5] == t),
        BuiltinTool::FileEdit => assert(all_builtin_tools()[6] == t),
        BuiltinTool::FileList => assert(all_builtin_tools()[7] == t),
        BuiltinTool::Screenshot => assert(all_builtin_tools()[8] == t),
        BuiltinTool::Search => assert(all_builtin_tools()[9] == t),
        BuiltinTool::OauthAuthorize => assert(all_builtin_tools()[10] == t),
        BuiltinTool::ToolsReload => assert(all_builtin_tools()[11] == t),
        BuiltinTool::Restart => assert(all_builtin_tools()[12] == t),
        BuiltinTool::KitUsage => assert(all_builtin_tools()[13] == t),
    }
}

/// The length of a tool's name with its 8th and 4th-last characters:
/// different for every built-in tool.
spec fn name_signature(t: BuiltinTool) -> (nat, char, char) {
    (tool_name(t).len(), tool_name(t)[7], tool_name(t)[tool_name(t).len() - 4])
}

proof fn lemma_name_signature(t: BuiltinTool)
    ensures
        name_signature(t) == match t {
            BuiltinTool::Exec => (11nat, 'e', 'e'),
            BuiltinTool::Process => (14nat, 'p', 'c'),
            BuiltinTool::WebFetch => (16nat, 'w', 'e'),
            BuiltinTool::WebSearch => (17nat, 'w', 'a'),
            BuiltinTool::FileRead => (16nat, 'f', 'r'),
            BuiltinTool::FileWrite => (17nat, 'f', 'r'),
            BuiltinTool::FileEdit => (16nat, 'f', 'e'),
            BuiltinTool::FileList => (16nat, 'f', 'l'),
            BuiltinTool::Screenshot => (17nat, 's', 's'),
            BuiltinTool::Search => (13nat, 's', 'a'),
            BuiltinTool::OauthAuthorize => (22nat, 'o', 'r'),
            BuiltinTool::ToolsReload => (19nat, 't', 'l'),
            BuiltinTool::Restart => (14nat, 'r', 't'),
            BuiltinTool::KitUsage => (16nat, 'k', 's'),
        },
{
    reveal_strlit("portal_exec");
    reveal_strlit("portal_process");
    reveal_strlit("portal_web_fetch");
    reveal_strlit("portal_web_search");
    reveal_strlit("portal_file_read");
    reveal_strlit("portal_file_write");
    reveal_strlit("portal_file_edit");
    reveal_strlit("portal_file_list");
    reveal_strlit("portal_screenshot");
    reveal_strlit("portal_search");
    reveal_strlit("portal_oauth_authorize");
    reveal_strlit("portal_tools_reload");
    reveal_strlit("portal_restart");
    reveal_strlit("portal_kit_usage");
    match t {
        BuiltinTool::Exec => {
            assert(tool_name(t).len() == 11 && tool_name(t)[7] == 'e' && tool_name(t)[7] == 'e');
        },
        BuiltinTool::Process => {
            assert(tool_name(t).len() == 14 && tool_name(t)[7] == 'p' && tool_name(t)[10] == 'c');
        },
        BuiltinTool::WebFetch => {
            assert(tool_name(t).len() == 16 && tool_name(t)[7] == 'w' && tool_name(t)[12] == 'e');
        },
        BuiltinTool::WebSearch => {
            assert(tool_name(t).len() == 17 && tool_name(t)[7] == 'w' && tool_name(t)[13] == 'a');
        },
        BuiltinTool::FileRead => {
            assert(tool_name(t).len() == 16 && tool_name(t)[7] == 'f' && tool_name(t)[12] == 'r');
        },
        BuiltinTool::FileWrite => {
            assert(tool_name(t).len() == 17 && tool_name(t)[7] == 'f' && tool_name(t)[13] == 'r');
        },
        BuiltinTool::FileEdit => {
            assert(tool_name(t).len() == 16 && tool_name(t)[7] == 'f' && tool_name(t)[12] == 'e');
        },
        BuiltinTool::FileList => {
            assert(tool_name(t).len() == 16 && tool_name(t)[7] == 'f' && tool_name(t)[12] == 'l');
        },
        BuiltinTool::Screenshot => {
            assert(tool_name(t).len() == 17 && tool_name(t)[7] == 's' && tool_name(t)[13] == 's');
        },
        BuiltinTool::Search => {
            assert(tool_name(t).len() == 13 && tool_name(t)[7] == 's' && tool_name(t)[9] == 'a');
        },
        BuiltinTool::OauthAuthorize => {
            assert(tool_name(t).len() == 22 && tool_name(t)[7] == 'o' && tool_name(t)[18] == 'r');
        },
        BuiltinTool::ToolsReload => {
            assert(tool_name(t).len() == 19 && tool_name(t)[7] == 't' && tool_name(t)[15] == 'l');
        },
        BuiltinTool::Restart => {
            assert(tool_name(t).len() == 14 && tool_name(t)[7] == 'r' && tool_name(t)[10] == 't');
        },
        BuiltinTool::KitUsage => {
            assert(tool_name(t).len() == 16 && tool_name(t)[7] == 'k' && tool_name(t)[12] == 's');
        },
    }
}

/// Different built-in tools have different names.
pub proof fn lemma_names_distinct(t: BuiltinTool, u: BuiltinTool)
    ensures
        tool_name(t) == tool_name(u) ==> t == u,
{
    lemma_name_signature(t);
    lemma_name_signature(u);
}

/// The built-in tool named `name`, if any.
pub fn builtin_named(name: &str) -> (r: Option<BuiltinTool>)
    ensures
        r matches Some(t) ==> tool_name(t) == name@,
        r is None ==> forall|t: BuiltinTool| tool_name(t) != name@,
{
    let all = vec![
        BuiltinTool::Exec,
        BuiltinTool::Process,
        BuiltinTool::WebFetch,
        BuiltinTool::WebSearch,
        BuiltinTool::FileRead,
        BuiltinTool::FileWrite,
        BuiltinTool::FileEdit,
        BuiltinTool::FileList,
        BuiltinTool::Screenshot,
        BuiltinTool::Search,
        BuiltinTool::OauthAuthorize,
        BuiltinTool::ToolsReload,
        BuiltinTool::Restart,
        BuiltinTool::KitUsage,
    ];
    assert(all@ =~= all_builtin_tools());
    let wanted = String::from_str(name);
    let mut i: usize = 0;
    while i < all.len()
        invariant
            i <= all.len(),
            all@ == all_builtin_tools(),
            wanted@ == name@,
            forall|k: int| 0 <= k < i ==> tool_name(#[trigger] all@[k]) != name@,
        decreases all.len() - i,
    {
        let candidate = String::from_str(builtin_name(all[i]));
        if candidate == wanted {
            return Some(all[i]);
        }
        i += 1;
    }
    proof {
        assert forall|t: BuiltinTool| tool_name(t) != name@ by {
            lemma_all_builtin_tools(t);
            let k = choose|k: int| 0 <= k < all_builtin_tools().len() && all_builtin_tools()[k] == t;
            assert(tool_name(all@[k]) != name@);
        }
    }
    None
}

/// Where a call of `tool_name` goes: a custom tool of that name first, then a
/// kit's tool, then the built-in of that name unless it is switched off.
pub fn route_call(tool_name: &str, is_custom: bool, is_kit: bool, tools: &ToolsConfig) -> (r: Result<
    CallRoute,
    RouteError,
>)
    ensures
        is_custom ==> r == Ok::<CallRoute, RouteError>(CallRoute::Custom),
        !is_custom && is_kit ==> r == Ok::<CallRoute, RouteError>(CallRoute::Kit),
        !is_custom && !is_kit ==> forall|t: BuiltinTool|
            #![trigger crate::tool_catalog::tool_name(t)]
            crate::tool_catalog::tool_name(t) == tool_name@ ==> if call_disabled(t, *tools) {
                r matches Err(RouteError::Disabled(u)) && u == t
            } else {
                r == Ok::<CallRoute, RouteError>(CallRoute::Builtin(t))
            },
        !is_custom && !is_kit && (forall|t: BuiltinTool|
            crate::tool_catalog::tool_name(t) != tool_name@) ==> (r matches Err(
            RouteError::Unknown { name },
        ) && name@ == tool_name@),
{
    if is_custom {
        return Ok(CallRoute::Custom);
    }
    if is_kit {
        return Ok(CallRoute::Kit);
    }
    match builtin_named(tool_name) {
        Some(t) => {
            proof {
                assert forall|u: BuiltinTool| crate::tool_catalog::tool_name(u) == tool_name@ implies u == t by {
                    lemma_names_distinct(t, u);
                }
            }
            let disabled = match t {
                BuiltinTool::Exec => !tools.exec_tool,
                BuiltinTool::Process => !tools.exec_tool,
                BuiltinTool::Screenshot => !tools.screenshot,
                _ => false,
            };
            if disabled {
                Err(RouteError::Disabled(t))
            } else {
                Ok(CallRoute::Builtin(t))
            }
        },
        None => Err(RouteError::Unknown { name: tool_name.to_owned() }),
    }
}

} // verus!
