//! Portal configuration: the settings `portal.toml` resolves to, their
//! defaults, and how the raw file's flat and nested fields combine.
//!
//! Flat (recommended):
//! ```toml
//! name = "vale"
//! bind = "0.0.0.0:9100"
//! workspace = "/workspace"
//! ```
//!
//! Nested (also works):
//! ```toml
//! bind_host = "0.0.0.0"
//! bind_port = 9100
//! [security]
//! workspace_root = "/workspace"
//! ```
use vstd::prelude::*;
use crate::numbers::{parse_u16, parse_unsigned};
use crate::platform::TargetOs;
use crate::text::{chars_of, concat, rfind_char, rfind_char_vec, string_of_range, trim};

verus! {

/// Which built-in tools are offered.
#[derive(Clone, Copy, Debug, PartialEq, Eq, Structural)]
pub struct ToolsConfig {
    /// `portal_exec` and `portal_process` (the file's `exec` switch).
    pub exec_tool: bool,
    pub file: bool,
    pub screenshot: bool,
    pub web_fetch: bool,
    /// Recursive workspace text search (portal_search).
    pub search: bool,
    /// When false, workspace/tools/mcp.toml is ignored (custom MCP tools disabled).
    pub custom_tools_enabled: bool,
}

/// Every tool switch on: the default of `[tools]`.
pub open spec fn all_tools_on() -> ToolsConfig {
    ToolsConfig {
        exec_tool: true,
        file: true,
        screenshot: true,
        web_fetch: true,
        search: true,
        custom_tools_enabled: true,
    }
}

impl Default for ToolsConfig {
    /// Every tool on.
    fn default() -> (r: Self)
        ensures
            r == all_tools_on(),
    {
        ToolsConfig {
            exec_tool: default_true(),
            file: default_true(),
            screenshot: default_true(),
            web_fetch: default_true(),
            search: default_true(),
            custom_tools_enabled: default_true(),
        }
    }
}

/// The local HTTP server for the cowork UI.
#[derive(Clone, Copy, Debug, PartialEq, Eq, Structural)]
pub struct CoworkConfig {
    pub enabled: bool,
    pub http_port: u16,
}

impl Default for CoworkConfig {
    /// Enabled, on port 9101.
    fn default() -> (r: Self)
        ensures
            r == (CoworkConfig { enabled: true, http_port: 9101 }),
    {
        CoworkConfig { enabled: true, http_port: 9101 }
    }
}

/// Limits on what the tools may touch.
#[derive(Clone, Debug)]
pub struct SecurityConfig {
    /// Programs `portal_exec` may run; empty allows every program.
    pub exec_allowlist: Vec<String>,
    /// The directory the file tools are confined to.
    pub workspace_root: String,
    pub max_file_size: usize,
}

/// The default per-file size limit: 10 MiB.
pub const DEFAULT_MAX_FILE_SIZE: usize = 10485760;

/// The workspace used when the configuration names none.
pub open spec fn default_workspace_root_spec() -> Seq<char> {
    "/workspace"@
}

impl Default for SecurityConfig {
    /// No allowlist, the default workspace, 10 MiB files.
    fn default() -> (r: Self)
        ensures
            r.exec_allowlist@.len() == 0,
            r.workspace_root@ == default_workspace_root_spec(),
            r.max_file_size == DEFAULT_MAX_FILE_SIZE,
    {
        SecurityConfig {
            exec_allowlist: Vec::new(),
            workspace_root: String::from_str("/workspace"),
            max_file_size: DEFAULT_MAX_FILE_SIZE,
        }
    }
}

/// Resolved portal configuration
#[derive(Clone, Debug)]
pub struct PortalConfig {
    pub name: String,
    pub bind_host: String,
    pub bind_port: u16,
    pub tools: ToolsConfig,
    pub security: SecurityConfig,
    pub cowork: CoworkConfig,
    /// When set, MCP TCP clients must send `auth` as the first JSON-RPC message.
    pub portal_mcp_token: Option<String>,
    pub kits_dir: Option<String>,
    pub kits_enabled: bool,
}

/// The kits directory used when the configuration names none.
pub open spec fn default_kits_dir_spec() -> Seq<char> {
    "~/.heart-portal/kits/"@
}

impl Default for PortalConfig {
    /// Named `portal`, listening on 0.0.0.0:9100, every tool and kits on.
    fn default() -> (r: Self)
        ensures
            r.name@ == "portal"@,
            r.bind_host@ == "0.0.0.0"@,
            r.bind_port == 9100,
            r.tools == all_tools_on(),
            r.security.exec_allowlist@.len() == 0,
            r.security.workspace_root@ == default_workspace_root_spec(),
            r.security.max_file_size == DEFAULT_MAX_FILE_SIZE,
            r.cowork == (CoworkConfig { enabled: true, http_port: 9101 }),
            r.portal_mcp_token is None,
            r.kits_dir matches Some(d) && d@ == default_kits_dir_spec(),
            r.kits_enabled,
    {
        PortalConfig {
            name: String::from_str("portal"),
            bind_host: String::from_str("0.0.0.0"),
            bind_port: 9100,
            tools: ToolsConfig::default(),
            security: SecurityConfig::default(),
            cowork: CoworkConfig::default(),
            portal_mcp_token: None,
            kits_dir: Some(default_kits_dir()),
            kits_enabled: true,
        }
    }
}

/// The default of every tool switch.
pub fn default_true() -> (r: bool)
    ensures
        r,
{
    true
}

/// The default kits directory, `~/.heart-portal/kits/`.
pub fn default_kits_dir() -> (r: String)
    ensures
        r@ == default_kits_dir_spec(),
{
    String::from_str("~/.heart-portal/kits/")
}

/// Why a configuration was refused.
#[derive(Clone, Debug)]
pub enum ConfigError {
    /// `bind` is `host:port` whose port part is not a port number.
    InvalidPort { bind: String, port: String },
    /// `bind` has no `:` and is not a port number.
    InvalidBind { bind: String },
    /// The workspace path is empty.
    EmptyWorkspace,
}

impl ConfigError {
    /// The message shown to the operator.
    pub fn message(&self) -> (r: String)
        ensures
            self matches ConfigError::InvalidPort { bind, port } ==> r@ == "Invalid port in bind '"@
                + bind@ + "': '"@ + port@ + "'"@,
            self matches ConfigError::InvalidBind { bind } ==> r@ == "Invalid bind address: '"@
                + bind@ + "'"@,
            self is EmptyWorkspace ==> r@ == "workspace must not be empty"@,
    {
        match self {
            ConfigError::InvalidPort { bind, port } => {
                let mut m = String::from_str("Invalid port in bind '");
                m.append(bind.as_str());
                m.append("': '");
                m.append(port.as_str());
                m.append("'");
                m
            },
            ConfigError::InvalidBind { bind } => {
                let mut m = String::from_str("Invalid bind address: '");
                m.append(bind.as_str());
                m.append("'");
                m
            },
            ConfigError::EmptyWorkspace => String::from_str("workspace must not be empty"),
        }
    }
}

/// The host a `bind` without one listens on.
pub open spec fn any_host() -> Seq<char> {
    "0.0.0.0"@
}

/// `bind` read as `host:port` (split at the last `:`, an empty host meaning
/// all interfaces) or as a bare port.
pub open spec fn bind_spec(bind: Seq<char>) -> Option<(Seq<char>, u16)> {
    let i = rfind_char(bind, ':');
    if i >= 0 {
        let host = bind.take(i);
        match parse_unsigned(bind.skip(i + 1), u16::MAX as int) {
            Some(p) => Some((if host.len() == 0 { any_host() } else { host }, p as u16)),
            None => None,
        }
    } else {
        match parse_unsigned(bind, u16::MAX as int) {
            Some(p) => Some((any_host(), p as u16)),
            None => None,
        }
    }
}

/// Parse "host:port" or just ":port" or "port"
pub fn parse_bind(bind: &str) -> (r: Result<(String, u16), ConfigError>)
    ensures
        match bind_spec(bind@) {
            Some((h, p)) => r matches Ok((host, port)) && host@ == h && port == p,
            None => r is Err,
        },
        rfind_char(bind@, ':') >= 0 && bind_spec(bind@) is None ==> (r matches Err(
            ConfigError::InvalidPort { bind: b, port },
        ) && b@ == bind@ && port@ == bind@.skip(rfind_char(bind@, ':') + 1)),
        rfind_char(bind@, ':') < 0 && bind_spec(bind@) is None ==> (r matches Err(
            ConfigError::InvalidBind { bind: b },
        ) && b@ == bind@),
{
    let cs = chars_of(bind);
    proof {
        crate::text::lemma_rfind_char(bind@, ':');
    }
    match rfind_char_vec(&cs, ':') {
        Some(i) => {
            let host = string_of_range(&cs, 0, i);
            let port_str = string_of_range(&cs, i + 1, cs.len());
            proof {
                assert(cs@.subrange(0, i as int) =~= bind@.take(i as int));
                assert(cs@.subrange(i + 1, cs@.len() as int) =~= bind@.skip(i + 1));
            }
            match parse_u16(port_str.as_str()) {
                Some(port) => {
                    let host = if i == 0 {
                        String::from_str("0.0.0.0")
                    } else {
                        host
                    };
                    Ok((host, port))
                },
                None => Err(ConfigError::InvalidPort { bind: bind.to_owned(), port: port_str }),
            }
        },
        None => match parse_u16(bind) {
            Some(port) => Ok((String::from_str("0.0.0.0"), port)),
            None => Err(ConfigError::InvalidBind { bind: bind.to_owned() }),
        },
    }
}

/// The `[cowork]` table as written in the file.
#[derive(Clone, Copy, Debug)]
pub struct RawCoworkConfig {
    pub enabled: Option<bool>,
    pub http_port: Option<u16>,
}

/// The `[security]` table as written in the file.
#[derive(Clone, Debug)]
pub struct RawSecurityConfig {
    pub exec_allowlist: Option<Vec<String>>,
    pub workspace_root: Option<String>,
    pub max_file_size: Option<usize>,
}

/// The configuration file as written, flat and nested fields alike.
#[derive(Clone, Debug)]
pub struct RawConfig {
    pub name: Option<String>,
    /// Flat bind string: "host:port" or just "port"
    pub bind: Option<String>,
    /// Separate host (overridden by `bind` if present)
    pub bind_host: Option<String>,
    /// Separate port (overridden by `bind` if present)
    pub bind_port: Option<u16>,
    /// Flat workspace path (convenience alias for security.workspace_root)
    pub workspace: Option<String>,
    pub tools: Option<ToolsConfig>,
    pub security: Option<RawSecurityConfig>,
    pub cowork: Option<RawCoworkConfig>,
    /// MCP TCP pre-auth token
    pub portal_mcp_token: Option<String>,
    /// Directory containing installed Portal kits.
    pub kits_dir: Option<String>,
    /// Enable kit discovery and tool proxying.
    pub kits_enabled: Option<bool>,
}

/// Whether `p` is an absolute path on `os`: rooted at `/` elsewhere; on
/// Windows a drive letter followed by a separator, or a `\\` UNC prefix.
pub open spec fn is_absolute_path(p: Seq<char>, os: TargetOs) -> bool {
    if os is Windows {
        (p.len() >= 3 && p[1] == ':' && (p[2] == '\\' || p[2] == '/')) || (p.len() >= 2 && p[0]
            == '\\' && p[1] == '\\')
    } else {
        p.len() >= 1 && p[0] == '/'
    }
}

/// `base` joined with the relative path `rel` (`Path::join`): a separator is
/// added unless `base` is empty or already ends with one.
pub open spec fn join_relative(base: Seq<char>, rel: Seq<char>, os: TargetOs) -> Seq<char> {
    let sep = if os is Windows {
        '\\'
    } else {
        '/'
    };
    if base.len() == 0 || base.last() == '/' || (os is Windows && base.last() == '\\') {
        base + rel
    } else {
        base.push(sep) + rel
    }
}

/// The workspace: kept when absolute, else taken relative to the directory
/// that holds the configuration file.
pub open spec fn resolved_workspace(ws: Seq<char>, config_dir: Seq<char>, os: TargetOs) -> Seq<char> {
    if is_absolute_path(ws, os) {
        ws
    } else {
        join_relative(config_dir, ws, os)
    }
}

/// Whether `p` is absolute on `os` (see [`is_absolute_path`]).
pub fn path_is_absolute(p: &str, os: &TargetOs) -> (r: bool)
    ensures
        r == is_absolute_path(p@, *os),
{
    let cs = chars_of(p);
    if os.is_windows() {
        (cs.len() >= 3 && cs[1] == ':' && (cs[2] == '\\' || cs[2] == '/')) || (cs.len() >= 2
            && cs[0] == '\\' && cs[1] == '\\')
    } else {
        cs.len() >= 1 && cs[0] == '/'
    }
}

/// `base` joined with the relative path `rel` (see [`join_relative`]).
pub fn resolve_relative(base: &str, rel: &str, os: &TargetOs) -> (r: String)
    ensures
        r@ == join_relative(base@, rel@, *os),
{
    let cs = chars_of(base);
    let n = cs.len();
    if n == 0 || cs[n - 1] == '/' || (os.is_windows() && cs[n - 1] == '\\') {
        concat(base, rel)
    } else {
        let mut out = base.to_owned();
        if os.is_windows() {
            out.append("\\");
        } else {
            out.append("/");
        }
        out.append(rel);
        proof {
            reveal_strlit("\\");
            reveal_strlit("/");
        }
        out
    }
}

/// Resolves a workspace path against the configuration file's directory.
pub fn resolve_workspace(ws: &str, config_dir: &str, os: &TargetOs) -> (r: String)
    ensures
        r@ == resolved_workspace(ws@, config_dir@, *os),
{
    if path_is_absolute(ws, os) {
        return ws.to_owned();
    }
    resolve_relative(config_dir, ws, os)
}

/// Whether `s` is empty or only whitespace.
pub open spec fn is_blank(s: Seq<char>) -> bool {
    trim(s).len() == 0
}

/// `raw` with its flat fields taking precedence over the nested ones and
/// defaults filling the rest; `Err` exactly when `bind` does not parse or the
/// workspace is empty.
pub open spec fn resolved_ok(raw: RawConfig) -> bool {
    let ws = match raw.workspace {
        Some(w) => Some(w@),
        None => match raw.security {
            Some(s) => match s.workspace_root {
                Some(w) => Some(w@),
                None => None,
            },
            None => None,
        },
    };
    &&& (raw.bind matches Some(b) ==> bind_spec(b@) is Some)
    &&& (ws matches Some(w) ==> w.len() > 0)
}

/// Builds the configuration from the file's fields; `config_dir` is the
/// directory that holds the file, against which a relative workspace resolves.
pub fn resolve_config(raw: RawConfig, config_dir: &str, os: &TargetOs) -> (r: Result<
    PortalConfig,
    ConfigError,
>)
    ensures
        r is Ok <==> resolved_ok(raw),
        (raw.bind matches Some(b) && bind_spec(b@) is None) ==> (r matches Err(e) && !(
        e is EmptyWorkspace)),
        r matches Ok(c) ==> {
            &&& c.name@ == match raw.name {
                Some(n) => n@,
                None => "portal"@,
            }
            &&& match raw.bind {
                Some(b) => bind_spec(b@) == Some((c.bind_host@, c.bind_port)),
                None => {
                    &&& c.bind_host@ == match raw.bind_host {
                        Some(h) => h@,
                        None => any_host(),
                    }
                    &&& c.bind_port == match raw.bind_port {
                        Some(p) => p,
                        None => 9100u16,
                    }
                },
            }
            &&& c.security.workspace_root@ == resolved_workspace(
                match raw.workspace {
                    Some(w) => w@,
                    None => match raw.security {
                        Some(s) => match s.workspace_root {
                            Some(w) => w@,
                            None => default_workspace_root_spec(),
                        },
                        None => default_workspace_root_spec(),
                    },
                },
                config_dir@,
                *os,
            )
            &&& c.security.exec_allowlist@ == match raw.security {
                Some(s) => match s.exec_allowlist {
                    Some(a) => a@,
                    None => Seq::<String>::empty(),
                },
                None => Seq::<String>::empty(),
            }
            &&& c.security.max_file_size == match raw.security {
                Some(s) => match s.max_file_size {
                    Some(m) => m,
                    None => DEFAULT_MAX_FILE_SIZE,
                },
                None => DEFAULT_MAX_FILE_SIZE,
            }
            &&& c.cowork.enabled == match raw.cowork {
                Some(cw) => match cw.enabled {
                    Some(e) => e,
                    None => true,
                },
                None => true,
            }
            &&& c.cowork.http_port == match raw.cowork {
                Some(cw) => match cw.http_port {
                    Some(p) => p as int,
                    None => (c.bind_port + 1) % 65536,
                },
                None => (c.bind_port + 1) % 65536,
            }
            &&& c.tools == match raw.tools {
                Some(t) => t,
                None => all_tools_on(),
            }
            &&& match raw.portal_mcp_token {
                Some(t) => if t@.len() > 0 {
                    c.portal_mcp_token matches Some(ct) && ct@ == t@
                } else {
                    c.portal_mcp_token is None
                },
                None => c.portal_mcp_token is None,
            }
            &&& match raw.kits_dir {
                Some(d) => if !is_blank(d@) {
                    c.kits_dir matches Some(cd) && cd@ == d@
                } else {
                    c.kits_dir matches Some(cd) && cd@ == default_kits_dir_spec()
                },
                None => c.kits_dir matches Some(cd) && cd@ == default_kits_dir_spec(),
            }
            &&& c.kits_enabled == match raw.kits_enabled {
                Some(k) => k,
                None => true,
            }
        },
{
    let (host, port) = match &raw.bind {
        Some(b) => match parse_bind(b.as_str()) {
            Ok(hp) => hp,
            Err(e) => return Err(e),
        },
        None => {
            let h = match &raw.bind_host {
                Some(h) => h.clone(),
                None => String::from_str("0.0.0.0"),
            };
            let p: u16 = match raw.bind_port {
                Some(p) => p,
                None => 9100,
            };
            (h, p)
        },
    };
    let ws: String = match &raw.workspace {
        Some(w) => w.clone(),
        None => match &raw.security {
            Some(s) => match &s.workspace_root {
                Some(w) => w.clone(),
                None => String::from_str("/workspace"),
            },
            None => String::from_str("/workspace"),
        },
    };
    proof {
        reveal_strlit("/workspace");
    }
    if ws.as_str().is_empty() {
        return Err(ConfigError::EmptyWorkspace);
    }
    let workspace_root = resolve_workspace(ws.as_str(), config_dir, os);
    let exec_allowlist = match &raw.security {
        Some(s) => match &s.exec_allowlist {
            Some(a) => a.clone(),
            None => Vec::new(),
        },
        None => Vec::new(),
    };
    let max_file_size = match &raw.security {
        Some(s) => match s.max_file_size {
            Some(m) => m,
            None => DEFAULT_MAX_FILE_SIZE,
        },
        None => DEFAULT_MAX_FILE_SIZE,
    };
    let enabled = match raw.cowork {
        Some(cw) => match cw.enabled {
            Some(e) => e,
            None => true,
        },
        None => true,
    };
    let http_port = match raw.cowork {
        Some(cw) => match cw.http_port {
            Some(p) => p,
            None => port.wrapping_add(1),
        },
        None => port.wrapping_add(1),
    };
    let name = match &raw.name {
        Some(n) => n.clone(),
        None => String::from_str("portal"),
    };
    let tools = match raw.tools {
        Some(t) => t,
        None => ToolsConfig::default(),
    };
    let portal_mcp_token = match &raw.portal_mcp_token {
        Some(t) => if t.as_str().is_empty() {
            None
        } else {
            Some(t.clone())
        },
        None => None,
    };
    let kits_dir = match &raw.kits_dir {
        Some(d) => if crate::text::trim_str(d.as_str()).as_str().is_empty() {
            Some(default_kits_dir())
        } else {
            Some(d.clone())
        },
        None => Some(default_kits_dir()),
    };
    let kits_enabled = match raw.kits_enabled {
        Some(k) => k,
        None => true,
    };
    Ok(PortalConfig {
        name,
        bind_host: host,
        bind_port: port,
        tools,
        security: SecurityConfig { exec_allowlist, workspace_root, max_file_size },
        cowork: CoworkConfig { enabled, http_port },
        portal_mcp_token,
        kits_dir,
        kits_enabled,
    })
}

} // verus!
