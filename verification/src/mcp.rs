//! MCP server connections: how a server is reached, what it reports at
//! initialization, the table of requests waiting for their JSON-RPC
//! response, the reconnect policy, and the configuration file's entries.
use vstd::prelude::*;
use std::collections::HashMap;
use crate::numbers::{decimal, decimal_signed, i64_to_string, u64_to_string};

verus! {

/// How an MCP server is reached.
#[derive(Clone, Debug)]
pub enum McpTransport {
    /// Spawn a child process and communicate via stdio
    Stdio { command: Vec<String>, env: HashMap<String, String> },
    /// Connect to an already-running server via TCP
    Tcp { host: String, port: u16 },
}

/// Configuration for an MCP server
#[derive(Clone, Debug)]
pub struct McpServerConfig {
    pub name: String,
    pub transport: McpTransport,
}

impl McpServerConfig {
    /// Create a stdio-based config (backward compatible)
    pub fn stdio(name: String, command: Vec<String>, env: HashMap<String, String>) -> (r: Self)
        ensures
            r.name == name,
            r.transport == (McpTransport::Stdio { command, env }),
    {
        McpServerConfig { name, transport: McpTransport::Stdio { command, env } }
    }

    /// Create a TCP-based config
    pub fn tcp(name: String, host: String, port: u16) -> (r: Self)
        ensures
            r.name == name,
            r.transport == (McpTransport::Tcp { host, port }),
    {
        McpServerConfig { name, transport: McpTransport::Tcp { host, port } }
    }

    /// Whether the server is reached over TCP.
    pub fn is_tcp(&self) -> (r: bool)
        ensures
            r == self.transport is Tcp,
    {
        match self.transport {
            McpTransport::Tcp { .. } => true,
            McpTransport::Stdio { .. } => false,
        }
    }
}

/// What a server offers about its tools.
#[derive(Clone, Copy, Debug, PartialEq, Eq, Structural)]
pub struct McpToolsCapability {
    pub list_changed: bool,
}

/// MCP server initialization capabilities
#[derive(Clone, Copy, Debug, PartialEq, Eq, Structural)]
pub struct McpCapabilities {
    pub tools: Option<McpToolsCapability>,
}

impl Default for McpCapabilities {
    /// Tools without change notifications.
    fn default() -> (r: Self)
        ensures
            r == (McpCapabilities { tools: Some(McpToolsCapability { list_changed: false }) }),
    {
        McpCapabilities { tools: Some(McpToolsCapability { list_changed: false }) }
    }
}

/// MCP server information from initialization
#[derive(Clone, Debug)]
pub struct McpServerInfo {
    pub name: String,
    pub version: String,
    pub capabilities: McpCapabilities,
}

/// Helper functions for common MCP operations
pub struct McpProtocol;

/// The MCP protocol revision spoken.
pub const PROTOCOL_VERSION: &'static str = "2024-11-05";

/// Requests sent to one server that wait for their response, by request id.
/// Ids count up from 1; once the server's output closes no request is
/// registered any more.
pub struct PendingRequests<W> {
    next_id: u64,
    alive: bool,
    waiters: HashMap<u64, W>,
}

impl<W> PendingRequests<W> {
    /// The waiters by request id.
    pub closed spec fn waiting(&self) -> Map<u64, W> {
        self.waiters@
    }

    /// The id the next request gets.
    pub closed spec fn next(&self) -> u64 {
        self.next_id
    }

    /// Whether the server's output is still open.
    pub closed spec fn open(&self) -> bool {
        self.alive
    }

    /// No request is waiting, and the next request gets id 1.
    pub fn new() -> (r: Self)
        ensures
            r.waiting() == Map::<u64, W>::empty(),
            r.next() == 1,
            r.open(),
    {
        PendingRequests { next_id: 1, alive: true, waiters: HashMap::new() }
    }

    /// Whether the server's output is still open.
    pub fn is_alive(&self) -> (r: bool)
        ensures
            r == self.open(),
    {
        self.alive
    }

    /// Gives the next request its id and, while the server's output is open,
    /// registers `waiter` under it; otherwise hands `waiter` back. The id is
    /// used up either way.
    pub fn register(&mut self, waiter: W) -> (r: Result<u64, W>)
        ensures
            final(self).next() == old(self).next().wrapping_add(1),
            final(self).open() == old(self).open(),
            old(self).open() ==> r == Ok::<u64, W>(old(self).next()) && final(self).waiting()
                == old(self).waiting().insert(old(self).next(), waiter),
            !old(self).open() ==> r == Err::<u64, W>(waiter) && final(self).waiting() == old(
                self,
            ).waiting(),
    {
        let id = self.next_id;
        self.next_id = self.next_id.wrapping_add(1);
        if !self.alive {
            return Err(waiter);
        }
        self.waiters.insert(id, waiter);
        Ok(id)
    }

    /// Takes the waiter of request `id` (its response arrived, or it is
    /// abandoned): the waiter, once; `None` for an unknown id.
    pub fn take(&mut self, id: u64) -> (r: Option<W>)
        ensures
            old(self).waiting().contains_key(id) ==> r == Some(old(self).waiting()[id]),
            !old(self).waiting().contains_key(id) ==> r is None,
            final(self).waiting() == old(self).waiting().remove(id),
            final(self).next() == old(self).next(),
            final(self).open() == old(self).open(),
    {
        self.waiters.remove(&id)
    }

    /// The server's output closed: no request is registered any more, and
    /// every waiting one is dropped. Returns how many were waiting.
    pub fn close(&mut self) -> (r: usize)
        ensures
            r == old(self).waiting().len(),
            final(self).waiting() == Map::<u64, W>::empty(),
            !final(self).open(),
            final(self).next() == old(self).next(),
    {
        self.alive = false;
        let n = self.waiters.len();
        self.waiters.clear();
        n
    }

    /// How many requests are waiting.
    pub fn len(&self) -> (r: usize)
        ensures
            r == self.waiting().len(),
    {
        self.waiters.len()
    }
}

/// A response's waiter is handed out exactly once: taking it again, or
/// after the server closed, gives nothing.
pub proof fn lemma_waiter_taken_once<W>(before: Map<u64, W>, id: u64)
    ensures
        !before.remove(id).contains_key(id),
        Map::<u64, W>::empty().remove(id) == Map::<u64, W>::empty(),
{
    assert(Map::<u64, W>::empty().remove(id) =~= Map::<u64, W>::empty());
}

/// Why a request to a server failed.
#[derive(Clone, Debug)]
pub enum RpcFailure {
    /// The server's output closed before the request was sent.
    Closed { server: String },
    /// No response within `secs` seconds.
    Timeout { server: String, secs: u64 },
    /// The response channel closed; `alive` tells whether the process still runs.
    ChannelClosed { server: String, alive: bool },
    /// The server answered with a JSON-RPC error.
    ServerError { server: String, code: i32, message: String },
    /// The response had neither a result nor an error.
    MissingResult { server: String },
}

impl RpcFailure {
    /// The message reported for the failure.
    pub fn message(&self) -> (r: String)
        ensures
            self matches RpcFailure::Closed { server } ==> r@ == "MCP server '"@ + server@
                + "' has closed stdout"@,
            self matches RpcFailure::Timeout { server, secs } ==> r@ == "Timeout ("@ + decimal(
                *secs as nat,
            ) + "s) waiting for response from MCP server '"@ + server@ + "'"@,
            self matches RpcFailure::ChannelClosed { server, alive } ==> r@
                == "Response channel closed for MCP server '"@ + server@ + "': "@ + if *alive {
                "response receiver was dropped"@
            } else {
                "the kit process exited or closed stdout"@
            },
            self matches RpcFailure::ServerError { server, code, message } ==> r@
                == "MCP server '"@ + server@ + "' returned error: "@ + message@ + " (code: "@
                + decimal_signed(*code as int) + ")"@,
            self matches RpcFailure::MissingResult { server } ==> r@ == "MCP server '"@ + server@
                + "' response missing result field"@,
    {
        match self {
            RpcFailure::Closed { server } => {
                let mut m = String::from_str("MCP server '");
                m.append(server.as_str());
                m.append("' has closed stdout");
                m
            },
            RpcFailure::Timeout { server, secs } => {
                let mut m = String::from_str("Timeout (");
                m.append(u64_to_string(*secs).as_str());
                m.append("s) waiting for response from MCP server '");
                m.append(server.as_str());
                m.append("'");
                m
            },
            RpcFailure::ChannelClosed { server, alive } => {
                let mut m = String::from_str("Response channel closed for MCP server '");
                m.append(server.as_str());
                m.append("': ");
                if *alive {
                    m.append("response receiver was dropped");
                } else {
                    m.append("the kit process exited or closed stdout");
                }
                m
            },
            RpcFailure::ServerError { server, code, message } => {
                let mut m = String::from_str("MCP server '");
                m.append(server.as_str());
                m.append("' returned error: ");
                m.append(message.as_str());
                m.append(" (code: ");
                m.append(i64_to_string(*code as i64).as_str());
                m.append(")");
                m
            },
            RpcFailure::MissingResult { server } => {
                let mut m = String::from_str("MCP server '");
                m.append(server.as_str());
                m.append("' response missing result field");
                m
            },
        }
    }
}

/// What a response means for its request: a JSON-RPC error wins; otherwise
/// the result, which must be present.
pub fn response_outcome(server: &str, error: Option<(i32, String)>, has_result: bool) -> (r: Result<
    (),
    RpcFailure,
>)
    ensures
        match error {
            Some((code, message)) => r matches Err(RpcFailure::ServerError { server: s, code: c, message: m })
                && s@ == server@ && c == code && m@ == message@,
            None => if has_result {
                r is Ok
            } else {
                r matches Err(RpcFailure::MissingResult { server: s }) && s@ == server@
            },
        },
{
    match error {
        Some((code, message)) => Err(RpcFailure::ServerError { server: server.to_owned(), code, message }),
        None => if has_result {
            Ok(())
        } else {
            Err(RpcFailure::MissingResult { server: server.to_owned() })
        },
    }
}

/// The wait before the next reconnect round: back to `interval` after a
/// round with nothing to do or a success, else doubled up to `max_secs`.
pub fn next_reconnect_backoff(current_secs: u64, interval_secs: u64, max_secs: u64, nothing_to_do: bool, any_success: bool) -> (r: u64)
    ensures
        r == if nothing_to_do || any_success {
            interval_secs as int
        } else if 2 * current_secs < max_secs {
            2 * current_secs
        } else {
            max_secs as int
        },
{
    if nothing_to_do || any_success {
        interval_secs
    } else if current_secs < max_secs / 2 + max_secs % 2 && current_secs <= u64::MAX / 2 {
        if current_secs * 2 < max_secs {
            current_secs * 2
        } else {
            max_secs
        }
    } else {
        max_secs
    }
}

/// Whether `names` holds `name`.
pub open spec fn names_contain(names: Seq<String>, name: Seq<char>) -> bool {
    exists|i: int| 0 <= i < names.len() && names[i]@ == name
}

/// The TCP servers of `configs` that are not connected, in order.
pub open spec fn disconnected_tcp(configs: Seq<McpServerConfig>, connected: Seq<String>) -> Seq<McpServerConfig>
    decreases configs.len(),
{
    if configs.len() == 0 {
        Seq::empty()
    } else {
        let rest = disconnected_tcp(configs.drop_last(), connected);
        let c = configs.last();
        if c.transport is Tcp && !names_contain(connected, c.name@) {
            rest.push(c)
        } else {
            rest
        }
    }
}

/// Whether `names` holds `name` (see [`names_contain`]).
pub fn contains_name(names: &Vec<String>, name: &String) -> (r: bool)
    ensures
        r == names_contain(names@, name@),
{
    let mut i: usize = 0;
    while i < names.len()
        invariant
            i <= names.len(),
            forall|k: int| 0 <= k < i ==> names@[k]@ != name@,
        decreases names.len() - i,
    {
        if names[i] == *name {
            return true;
        }
        i += 1;
    }
    false
}

/// The TCP servers of `configs` whose name is not among the `connected`
/// ones: those the reconnect loop dials again.
pub fn disconnected_tcp_servers(configs: &Vec<McpServerConfig>, connected: &Vec<String>) -> (r: Vec<
    String,
>)
    ensures
        r@.len() == disconnected_tcp(configs@, connected@).len(),
        forall|i: int| 0 <= i < r@.len() ==> r@[i]@ == (#[trigger] disconnected_tcp(configs@, connected@)[i]).name@,
{
    let mut out: Vec<String> = Vec::new();
    let mut i: usize = 0;
    while i < configs.len()
        invariant
            i <= configs.len(),
            out@.len() == disconnected_tcp(configs@.take(i as int), connected@).len(),
            forall|k: int|
                0 <= k < out@.len() ==> out@[k]@ == (#[trigger] disconnected_tcp(
                    configs@.take(i as int),
                    connected@,
                )[k]).name@,
        decreases configs.len() - i,
    {
        assert(configs@.take(i + 1).drop_last() =~= configs@.take(i as int));
        let c = &configs[i];
        if c.is_tcp() && !contains_name(connected, &c.name) {
            out.push(c.name.clone());
        }
        i += 1;
    }
    assert(configs@.take(configs.len() as int) =~= configs@);
    out
}

/// A `[[servers]]` entry of the configuration file, as read.
#[derive(Clone, Debug)]
pub struct RawServerEntry {
    pub name: Option<String>,
    pub host: Option<String>,
    /// The port as the file's integer.
    pub port: Option<i64>,
    /// The command array; `None` items are not strings.
    pub command: Option<Vec<Option<String>>>,
    /// The env table; `None` values are not strings.
    pub env: Vec<(String, Option<String>)>,
}

/// Why a configuration entry was refused.
#[derive(Clone, Debug)]
pub enum ServerEntryError {
    MissingName,
    NoTransport { name: String },
    CommandNotStrings,
    EnvNotString { key: String },
}

impl ServerEntryError {
    /// The message reported.
    pub fn message(&self) -> (r: String)
        ensures
            self is MissingName ==> r@ == "Server entry missing 'name' field"@,
            self matches ServerEntryError::NoTransport { name } ==> r@ == "Server '"@ + name@
                + "' needs either host+port (TCP) or command (stdio)"@,
            self is CommandNotStrings ==> r@ == "Command array must contain strings"@,
            self matches ServerEntryError::EnvNotString { key } ==> r@ == "Environment variable '"@
                + key@ + "' must be a string"@,
    {
        match self {
            ServerEntryError::MissingName => String::from_str("Server entry missing 'name' field"),
            ServerEntryError::NoTransport { name } => {
                let mut m = String::from_str("Server '");
                m.append(name.as_str());
                m.append("' needs either host+port (TCP) or command (stdio)");
                m
            },
            ServerEntryError::CommandNotStrings => String::from_str(
                "Command array must contain strings",
            ),
            ServerEntryError::EnvNotString { key } => {
                let mut m = String::from_str("Environment variable '");
                m.append(key.as_str());
                m.append("' must be a string");
                m
            },
        }
    }
}

/// The strings of `items`, when every item is one.
pub open spec fn all_strings(items: Seq<Option<String>>) -> bool {
    forall|i: int| 0 <= i < items.len() ==> (#[trigger] items[i]) is Some
}

/// How an entry is reached: TCP when it has both a host and a port (the
/// port truncated to 16 bits as the file's integer is cast), else stdio.
pub open spec fn entry_is_tcp(e: RawServerEntry) -> bool {
    e.host is Some && e.port is Some
}

/// Reads one `[[servers]]` entry: a name is required; TCP with host and
/// port, else stdio with a command of strings and string env values.
pub fn server_config_from(entry: &RawServerEntry) -> (r: Result<McpServerConfig, ServerEntryError>)
    ensures
        entry.name is None ==> r matches Err(ServerEntryError::MissingName),
        entry.name matches Some(n) ==> match r {
            Ok(c) => c.name@ == n@ && if entry_is_tcp(*entry) {
                c.transport matches McpTransport::Tcp { host, port } && host@ == entry.host->0@
                    && port == #[verifier::truncate] (entry.port->0 as u16)
            } else {
                &&& entry.command matches Some(cmd)
                &&& all_strings(cmd@)
                &&& forall|i: int| 0 <= i < entry.env@.len() ==> (#[trigger] entry.env@[i]).1 is Some
                &&& c.transport matches McpTransport::Stdio { command, env } && command@.len()
                    == cmd@.len() && forall|i: int|
                    0 <= i < cmd@.len() ==> command@[i]@ == (#[trigger] cmd@[i])->0@
            },
            Err(e) => !entry_is_tcp(*entry) && match e {
                ServerEntryError::NoTransport { name } => entry.command is None && name@ == n@,
                ServerEntryError::CommandNotStrings => entry.command matches Some(cmd) && !all_strings(
                    cmd@,
                ),
                ServerEntryError::EnvNotString { key } => entry.command matches Some(cmd)
                    && all_strings(cmd@) && exists|i: int|
                    0 <= i < entry.env@.len() && (#[trigger] entry.env@[i]).1 is None
                        && entry.env@[i].0@ == key@,
                ServerEntryError::MissingName => false,
            },
        },
{
    let name = match &entry.name {
        Some(n) => n.clone(),
        None => return Err(ServerEntryError::MissingName),
    };
    if let (Some(host), Some(port)) = (&entry.host, entry.port) {
        return Ok(McpServerConfig { name, transport: McpTransport::Tcp { host: host.clone(), port: #[verifier::truncate] (port as u16) } });
    }
    let items = match &entry.command {
        Some(items) => items,
        None => return Err(ServerEntryError::NoTransport { name }),
    };
    let mut command: Vec<String> = Vec::new();
    let mut i: usize = 0;
    while i < items.len()
        invariant
            i <= items.len(),
            entry.name is Some,
            !entry_is_tcp(*entry),
            entry.command == Some(*items),
            command@.len() == i,
            forall|k: int| 0 <= k < i ==> (#[trigger] items@[k]) is Some && command@[k]@ == items@[k]->0@,
        decreases items.len() - i,
    {
        match &items[i] {
            Some(s) => command.push(s.clone()),
            None => return Err(ServerEntryError::CommandNotStrings),
        }
        i += 1;
    }
    assert(all_strings(items@));
    let mut env: HashMap<String, String> = HashMap::new();
    let mut j: usize = 0;
    while j < entry.env.len()
        invariant
            j <= entry.env@.len(),
            entry.name is Some,
            !entry_is_tcp(*entry),
            entry.command == Some(*items),
            all_strings(items@),
            forall|k: int| 0 <= k < j ==> (#[trigger] entry.env@[k]).1 is Some,
        decreases entry.env.len() - j,
    {
        let (key, value) = &entry.env[j];
        match value {
            Some(v) => {
                env.insert(key.clone(), v.clone());
            },
            None => {
                return Err(ServerEntryError::EnvNotString { key: key.clone() });
            },
        }
        j += 1;
    }
    Ok(McpServerConfig { name, transport: McpTransport::Stdio { command, env } })
}

} // verus!
