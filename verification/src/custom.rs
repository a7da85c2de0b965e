//! Custom MCP tools that the workspace defines in `tools/mcp.toml`: which
//! servers to start (and with what command and environment), the tool list
//! and routes they yield, and how a tool's result is shown.
//!
//! Anyone who can edit `mcp.toml` can make the portal start any process, so
//! workspace write access is as strong as the portal's own rights; the one
//! check made here refuses shell metacharacters in a server's program.
use vstd::prelude::*;
use crate::config::{is_absolute_path, join_relative, path_is_absolute, resolve_relative};
use crate::kits::{join_strings, join_with};
use crate::platform::TargetOs;
use crate::text::{chars_of, contains_seq, pair_views, same_text, views};
use crate::tool_catalog::ToolInfo;

verus! {

/// The characters refused in a server's program.
pub open spec fn is_shell_metachar(c: char) -> bool {
    c == ';' || c == '|' || c == '&' || c == '`' || c == '$' || c == '(' || c == ')' || c == '>'
        || c == '<'
}

/// True when `s` holds a shell metacharacter.
pub open spec fn has_shell_metachar(s: Seq<char>) -> bool {
    exists|i: int| 0 <= i < s.len() && is_shell_metachar(#[trigger] s[i])
}

/// Whether the program of a command (its first element) holds a shell
/// metacharacter; arguments are not checked.
pub fn command_base_has_shell_metachar(cmd: &str) -> (r: bool)
    ensures
        r == has_shell_metachar(cmd@),
{
    let cs = chars_of(cmd);
    let mut i: usize = 0;
    while i < cs.len()
        invariant
            cs@ == cmd@,
            i <= cs@.len(),
            forall|k: int| 0 <= k < i ==> !is_shell_metachar(#[trigger] cs@[k]),
        decreases cs.len() - i,
    {
        let c = cs[i];
        if c == ';' || c == '|' || c == '&' || c == '`' || c == '$' || c == '(' || c == ')' || c
            == '>' || c == '<' {
            return true;
        }
        i = i + 1;
    }
    false
}

/// `Path::join`: `rel` itself when it is absolute, else `rel` under `base`.
pub open spec fn path_join(base: Seq<char>, rel: Seq<char>, os: TargetOs) -> Seq<char> {
    if is_absolute_path(rel, os) {
        rel
    } else {
        join_relative(base, rel, os)
    }
}

fn join_path(base: &str, rel: &str, os: &TargetOs) -> (r: String)
    ensures
        r@ == path_join(base@, rel@, *os),
{
    if path_is_absolute(rel, os) {
        rel.to_owned()
    } else {
        resolve_relative(base, rel, os)
    }
}

/// The directory of the custom tools: `tools` under the workspace.
pub fn tools_dir(workspace_root: &str, os: &TargetOs) -> (r: String)
    ensures
        r@ == path_join(workspace_root@, "tools"@, *os),
{
    join_path(workspace_root, "tools", os)
}

/// A program names a script of the tools directory unless it starts with
/// `/` or mentions `node` or `python`.
pub open spec fn names_script(program: Seq<char>) -> bool {
    !(program.len() > 0 && program[0] == '/') && !contains_seq(program, "node"@) && !contains_seq(
        program,
        "python"@,
    )
}

fn contains_text(s: &str, w: &str) -> (r: bool)
    ensures
        r == contains_seq(s@, w@),
{
    let cs = chars_of(s);
    let ws = chars_of(w);
    if ws.len() > cs.len() {
        proof {
            assert forall|i: int| !crate::text::occurs_at(cs@, ws@, i) by {}
        }
        return false;
    }
    let n = cs.len();
    let m = ws.len();
    let mut i: usize = 0;
    while i <= n - m
        invariant
            cs@ == s@,
            ws@ == w@,
            n == cs@.len(),
            m == ws@.len(),
            m <= n,
            i <= n - m + 1,
            forall|k: int| 0 <= k < i ==> !crate::text::occurs_at(cs@, ws@, k),
        decreases n - m + 1 - i,
    {
        let mut j: usize = 0;
        let mut same = true;
        while j < m
            invariant
                n == cs@.len(),
                m == ws@.len(),
                i + m <= n,
                j <= m,
                same == (forall|k: int| 0 <= k < j ==> cs@[i + k] == ws@[k]),
            decreases m - j,
        {
            if cs[i + j] != ws[j] {
                same = false;
            }
            j = j + 1;
        }
        if same {
            assert(cs@.subrange(i as int, i + ws@.len()) =~= ws@);
            assert(crate::text::occurs_at(cs@, ws@, i as int));
            return true;
        }
        proof {
            let k = choose|k: int| 0 <= k < ws@.len() && cs@[i + k] != ws@[k];
            assert(cs@.subrange(i as int, i + ws@.len())[k] != ws@[k]);
        }
        i = i + 1;
    }
    proof {
        assert forall|k: int| !crate::text::occurs_at(cs@, ws@, k) by {
            if 0 <= k && k + ws@.len() <= cs@.len() {
                assert(k < i);
            }
        }
    }
    false
}

/// The path to look for when a server's program names a script of the
/// tools directory (see [`names_script`]): the program under that directory.
pub fn script_candidate(program: &str, tools_dir: &str, os: &TargetOs) -> (r: Option<String>)
    ensures
        names_script(program@) ==> (r matches Some(p) && p@ == path_join(
            tools_dir@,
            program@,
            *os,
        )),
        !names_script(program@) ==> r is None,
{
    let cs = chars_of(program);
    if cs.len() > 0 && cs[0] == '/' {
        return None;
    }
    if contains_text(program, "node") || contains_text(program, "python") {
        return None;
    }
    Some(join_path(tools_dir, program, os))
}

/// A server of `mcp.toml` as read (a missing command or env is empty).
#[derive(Debug)]
pub struct CustomServerEntry {
    pub name: String,
    pub command: Vec<String>,
    pub env: Vec<(String, String)>,
}

/// A server to start: its name, command and environment.
#[derive(Debug)]
pub struct CustomServerPlan {
    pub name: String,
    pub command: Vec<String>,
    pub env: Vec<(String, String)>,
}

/// The environment variable naming the tools directory.
pub const TOOLS_DIR_VAR: &'static str = "PORTAL_TOOLS_DIR";

/// True when some pair of `env` is named `key`.
pub open spec fn has_key(env: Seq<(Seq<char>, Seq<char>)>, key: Seq<char>) -> bool {
    exists|i: int| 0 <= i < env.len() && (#[trigger] env[i]).0 == key
}

/// The environment of a server: its own, with `PORTAL_TOOLS_DIR` set to
/// the tools directory unless it already sets it.
pub open spec fn plan_env(env: Seq<(Seq<char>, Seq<char>)>, tools_dir: Seq<char>) -> Seq<
    (Seq<char>, Seq<char>),
> {
    if has_key(env, TOOLS_DIR_VAR@) {
        env
    } else {
        env.push((TOOLS_DIR_VAR@, tools_dir))
    }
}

/// The command of a server: a program that names an existing script of the
/// tools directory is replaced by that script's path.
pub open spec fn plan_command(
    command: Seq<Seq<char>>,
    tools_dir: Seq<char>,
    script_exists: bool,
    os: TargetOs,
) -> Seq<Seq<char>> {
    if names_script(command[0]) && script_exists {
        command.update(0, path_join(tools_dir, command[0], os))
    } else {
        command
    }
}

/// The plan of a server, in plain values.
pub open spec fn plan_view(p: CustomServerPlan) -> (Seq<char>, Seq<Seq<char>>, Seq<(Seq<char>, Seq<char>)>) {
    (p.name@, views(p.command@), pair_views(p.env@))
}

/// The servers to start, in order: servers without a command are skipped;
/// the first whose program holds a shell metacharacter refuses the whole
/// file (`Err` with its name and program). `script_exists[i]` tells whether
/// the script that entry `i` names exists.
pub open spec fn custom_plans(
    entries: Seq<CustomServerEntry>,
    tools_dir: Seq<char>,
    script_exists: Seq<bool>,
    os: TargetOs,
) -> Result<Seq<(Seq<char>, Seq<Seq<char>>, Seq<(Seq<char>, Seq<char>)>)>, (Seq<char>, Seq<char>)>
    decreases entries.len(),
{
    if entries.len() == 0 {
        Ok(Seq::empty())
    } else {
        let n = entries.len() - 1;
        match custom_plans(entries.drop_last(), tools_dir, script_exists, os) {
            Err(e) => Err(e),
            Ok(ps) => {
                let e = entries[n];
                let cmd = views(e.command@);
                if cmd.len() == 0 {
                    Ok(ps)
                } else if has_shell_metachar(cmd[0]) {
                    Err((e.name@, cmd[0]))
                } else {
                    Ok(
                        ps.push(
                            (
                                e.name@,
                                plan_command(cmd, tools_dir, script_exists[n], os),
                                plan_env(pair_views(e.env@), tools_dir),
                            ),
                        ),
                    )
                }
            },
        }
    }
}

/// Why `mcp.toml` is refused.
#[derive(Debug)]
pub enum CustomConfigError {
    ShellMetachar { name: String, program: String },
}

/// The text `{:?}` writes for a string: quoted, with escapes.
pub uninterp spec fn debug_quoted(s: Seq<char>) -> Seq<char>;

/// `<str as Debug>::fmt` through `format!("{:?}")`: `s` quoted and escaped
/// as Rust's debug output writes it (named by [`debug_quoted`]).
#[verifier::external_body]
fn debug_text(s: &str) -> (r: String)
    ensures
        r@ == debug_quoted(s@),
{
    format!("{:?}", s)
}

impl CustomConfigError {
    /// The error's message.
    pub fn message(&self) -> (r: String)
        ensures
            match self {
                CustomConfigError::ShellMetachar { name, program } => r@ == "Custom MCP server '"@
                    + name@ + "' command path contains shell metacharacters: "@ + debug_quoted(
                    program@,
                ),
            },
    {
        match self {
            CustomConfigError::ShellMetachar { name, program } => {
                let mut m = String::from_str("Custom MCP server '");
                m.append(name.as_str());
                m.append("' command path contains shell metacharacters: ");
                let q = debug_text(program.as_str());
                m.append(q.as_str());
                m
            },
        }
    }
}

fn clone_strings(v: &Vec<String>) -> (r: Vec<String>)
    ensures
        views(r@) == views(v@),
{
    let mut out: Vec<String> = Vec::new();
    let mut i: usize = 0;
    while i < v.len()
        invariant
            i <= v@.len(),
            views(out@) == views(v@).take(i as int),
        decreases v.len() - i,
    {
        let s = v[i].as_str().to_owned();
        let ghost before = out@;
        out.push(s);
        proof {
            assert(views(out@) =~= views(before).push(s@));
            assert(views(out@) =~= views(v@).take(i + 1));
        }
        i = i + 1;
    }
    proof {
        assert(views(v@).take(v@.len() as int) =~= views(v@));
    }
    out
}

fn clone_pairs(v: &Vec<(String, String)>) -> (r: Vec<(String, String)>)
    ensures
        pair_views(r@) == pair_views(v@),
{
    let mut out: Vec<(String, String)> = Vec::new();
    let mut i: usize = 0;
    while i < v.len()
        invariant
            i <= v@.len(),
            pair_views(out@) == pair_views(v@).take(i as int),
        decreases v.len() - i,
    {
        let k = v[i].0.as_str().to_owned();
        let x = v[i].1.as_str().to_owned();
        let ghost before = out@;
        out.push((k, x));
        proof {
            assert(pair_views(out@) =~= pair_views(before).push((k@, x@)));
            assert(pair_views(out@) =~= pair_views(v@).take(i + 1));
        }
        i = i + 1;
    }
    proof {
        assert(pair_views(v@).take(v@.len() as int) =~= pair_views(v@));
    }
    out
}

fn env_for(env: &Vec<(String, String)>, tools_dir: &str) -> (r: Vec<(String, String)>)
    ensures
        pair_views(r@) == plan_env(pair_views(env@), tools_dir@),
{
    let mut out = clone_pairs(env);
    let mut i: usize = 0;
    while i < env.len()
        invariant
            i <= env@.len(),
            pair_views(out@) == pair_views(env@),
            forall|k: int| 0 <= k < i ==> (#[trigger] pair_views(env@)[k]).0 != TOOLS_DIR_VAR@,
        decreases env.len() - i,
    {
        if same_text(env[i].0.as_str(), TOOLS_DIR_VAR) {
            assert(pair_views(env@)[i as int].0 == TOOLS_DIR_VAR@);
            assert(has_key(pair_views(env@), TOOLS_DIR_VAR@));
            return out;
        }
        i = i + 1;
    }
    let ghost before = out@;
    out.push((TOOLS_DIR_VAR.to_owned(), tools_dir.to_owned()));
    proof {
        assert(pair_views(out@) =~= pair_views(before).push((TOOLS_DIR_VAR@, tools_dir@)));
    }
    out
}

/// The servers to start for the entries of `mcp.toml` (see [`custom_plans`]).
pub fn custom_server_plans(
    entries: &Vec<CustomServerEntry>,
    tools_dir: &str,
    script_exists: &Vec<bool>,
    os: &TargetOs,
) -> (r: Result<Vec<CustomServerPlan>, CustomConfigError>)
    requires
        script_exists@.len() == entries@.len(),
    ensures
        match custom_plans(entries@, tools_dir@, script_exists@, *os) {
            Ok(ps) => r matches Ok(plans) && plans@.map_values(|p: CustomServerPlan| plan_view(p))
                == ps,
            Err((name, program)) => r matches Err(CustomConfigError::ShellMetachar { name: n, program: p })
                && n@ == name && p@ == program,
        },
{
    let mut plans: Vec<CustomServerPlan> = Vec::new();
    let mut i: usize = 0;
    proof {
        assert(entries@.take(0) =~= Seq::<CustomServerEntry>::empty());
    }
    while i < entries.len()
        invariant
            i <= entries@.len(),
            script_exists@.len() == entries@.len(),
            custom_plans(entries@.take(i as int), tools_dir@, script_exists@, *os) matches Ok(ps)
                && plans@.map_values(|p: CustomServerPlan| plan_view(p)) == ps,
        decreases entries.len() - i,
    {
        let e = &entries[i];
        proof {
            assert(entries@.take(i + 1).drop_last() =~= entries@.take(i as int));
            assert(entries@.take(i + 1)[i as int] == *e);
        }
        if e.command.len() == 0 {
            i = i + 1;
            continue;
        }
        if command_base_has_shell_metachar(e.command[0].as_str()) {
            let err = CustomConfigError::ShellMetachar {
                name: e.name.as_str().to_owned(),
                program: e.command[0].as_str().to_owned(),
            };
            proof {
                let k = i as int;
                assert forall|j: int| k < j <= entries@.len() implies custom_plans(
                    #[trigger] entries@.take(j),
                    tools_dir@,
                    script_exists@,
                    *os,
                ) == custom_plans(entries@.take(i + 1), tools_dir@, script_exists@, *os) by {
                    lemma_plans_err_sticky(entries@, tools_dir@, script_exists@, *os, i + 1, j);
                }
                assert(entries@.take(entries@.len() as int) =~= entries@);
            }
            return Err(err);
        }
        let mut command = clone_strings(&e.command);
        let candidate = script_candidate(e.command[0].as_str(), tools_dir, os);
        match candidate {
            Some(path) => {
                if script_exists[i] {
                    command.set(0, path);
                }
            },
            None => {},
        }
        let env = env_for(&e.env, tools_dir);
        let plan = CustomServerPlan { name: e.name.as_str().to_owned(), command, env };
        let ghost before = plans@;
        plans.push(plan);
        proof {
            assert(views(plan.command@) =~= plan_command(
                views(e.command@),
                tools_dir@,
                script_exists@[i as int],
                *os,
            ));
            assert(plans@.map_values(|p: CustomServerPlan| plan_view(p)) =~= before.map_values(
                |p: CustomServerPlan| plan_view(p),
            ).push(plan_view(plan)));
        }
        i = i + 1;
    }
    proof {
        assert(entries@.take(entries@.len() as int) =~= entries@);
    }
    Ok(plans)
}

proof fn lemma_plans_err_sticky(
    entries: Seq<CustomServerEntry>,
    tools_dir: Seq<char>,
    script_exists: Seq<bool>,
    os: TargetOs,
    i: int,
    j: int,
)
    requires
        0 < i <= j <= entries.len(),
        custom_plans(entries.take(i), tools_dir, script_exists, os) is Err,
    ensures
        custom_plans(entries.take(j), tools_dir, script_exists, os) == custom_plans(
            entries.take(i),
            tools_dir,
            script_exists,
            os,
        ),
    decreases j - i,
{
    if j > i {
        lemma_plans_err_sticky(entries, tools_dir, script_exists, os, i, j - 1);
        assert(entries.take(j).drop_last() =~= entries.take(j - 1));
    }
}

// ---------------------------------------------------------------------------
// Tools and results

/// A tool that a custom server offers.
#[derive(Debug)]
pub struct DiscoveredTool {
    pub server: String,
    pub name: String,
    pub description: String,
    pub input_schema: String,
}

/// The custom tools to list (under the server's own names) and the route of
/// each to its server, in discovery order.
pub fn custom_tool_listing(discovered: &Vec<DiscoveredTool>) -> (r: (Vec<ToolInfo>, Vec<(String, String)>))
    ensures
        r.0@.len() == discovered@.len(),
        pair_views(r.1@).len() == discovered@.len(),
        forall|i: int|
            0 <= i < discovered@.len() ==> {
                &&& (#[trigger] r.0@[i]).name@ == discovered@[i].name@
                &&& r.0@[i].description@ == discovered@[i].description@
                &&& r.0@[i].input_schema@ == discovered@[i].input_schema@
                &&& pair_views(r.1@)[i] == (discovered@[i].name@, discovered@[i].server@)
            },
{
    let mut tools: Vec<ToolInfo> = Vec::new();
    let mut routes: Vec<(String, String)> = Vec::new();
    let mut i: usize = 0;
    while i < discovered.len()
        invariant
            i <= discovered@.len(),
            tools@.len() == i,
            routes@.len() == i,
            forall|k: int|
                0 <= k < i ==> {
                    &&& (#[trigger] tools@[k]).name@ == discovered@[k].name@
                    &&& tools@[k].description@ == discovered@[k].description@
                    &&& tools@[k].input_schema@ == discovered@[k].input_schema@
                    &&& routes@[k].0@ == discovered@[k].name@
                    &&& routes@[k].1@ == discovered@[k].server@
                },
        decreases discovered.len() - i,
    {
        let d = &discovered[i];
        let ghost t0 = tools@;
        let ghost r0 = routes@;
        tools.push(
            ToolInfo {
                name: d.name.as_str().to_owned(),
                description: d.description.as_str().to_owned(),
                input_schema: d.input_schema.as_str().to_owned(),
            },
        );
        routes.push((d.name.as_str().to_owned(), d.server.as_str().to_owned()));
        proof {
            assert forall|k: int| 0 <= k < i + 1 implies {
                &&& (#[trigger] tools@[k]).name@ == discovered@[k].name@
                &&& tools@[k].description@ == discovered@[k].description@
                &&& tools@[k].input_schema@ == discovered@[k].input_schema@
                &&& routes@[k].0@ == discovered@[k].name@
                &&& routes@[k].1@ == discovered@[k].server@
            } by {
                if k < i {
                    assert(tools@[k] == t0[k]);
                    assert(routes@[k] == r0[k]);
                }
            }
        }
        i = i + 1;
    }
    (tools, routes)
}

/// The server of the first route named `tool`.
pub open spec fn route_of(routes: Seq<(Seq<char>, Seq<char>)>, tool: Seq<char>) -> Option<Seq<char>>
    decreases routes.len(),
{
    if routes.len() == 0 {
        None
    } else if routes[0].0 == tool {
        Some(routes[0].1)
    } else {
        route_of(routes.drop_first(), tool)
    }
}

/// Why a custom tool call cannot be made.
#[derive(Debug)]
pub enum CustomCallError {
    UnknownTool(String),
    NotInitialized,
}

impl CustomCallError {
    /// The error's message.
    pub fn message(&self) -> (r: String)
        ensures
            match self {
                CustomCallError::UnknownTool(t) => r@ == "Unknown custom tool: "@ + t@,
                CustomCallError::NotInitialized => r@ == "Custom MCP client not initialized"@,
            },
    {
        match self {
            CustomCallError::UnknownTool(t) => {
                let mut m = String::from_str("Unknown custom tool: ");
                m.append(t.as_str());
                m
            },
            CustomCallError::NotInitialized => String::from_str("Custom MCP client not initialized"),
        }
    }
}

/// Whether `tool` is a custom tool.
pub fn has_custom_tool(routes: &Vec<(String, String)>, tool: &str) -> (r: bool)
    ensures
        r == (route_of(pair_views(routes@), tool@) is Some),
{
    match custom_route(routes, tool, true) {
        Ok(_) => true,
        Err(_) => false,
    }
}

/// The server to call for `tool`: the first route named `tool`; an unknown
/// tool is refused first, then a missing client.
pub fn custom_route(routes: &Vec<(String, String)>, tool: &str, client_ready: bool) -> (r: Result<
    String,
    CustomCallError,
>)
    ensures
        match route_of(pair_views(routes@), tool@) {
            None => r matches Err(CustomCallError::UnknownTool(t)) && t@ == tool@,
            Some(s) => if client_ready {
                r matches Ok(x) && x@ == s
            } else {
                r matches Err(CustomCallError::NotInitialized)
            },
        },
{
    let mut i: usize = 0;
    assert(pair_views(routes@).skip(0) =~= pair_views(routes@));
    while i < routes.len()
        invariant
            i <= routes@.len(),
            route_of(pair_views(routes@), tool@) == route_of(pair_views(routes@).skip(i as int), tool@),
        decreases routes.len() - i,
    {
        proof {
            assert(pair_views(routes@).skip(i as int).drop_first() =~= pair_views(routes@).skip(i + 1));
        }
        if same_text(routes[i].0.as_str(), tool) {
            if !client_ready {
                return Err(CustomCallError::NotInitialized);
            }
            return Ok(routes[i].1.as_str().to_owned());
        }
        i = i + 1;
    }
    Err(CustomCallError::UnknownTool(tool.to_owned()))
}

/// One block of an MCP tool result's `content`: its text when it is an
/// object of type `text` with a string `text`, and its compact JSON.
#[derive(Debug)]
pub struct ContentBlock {
    pub text: Option<String>,
    pub json: String,
}

/// An MCP tool result's `content`: an array of blocks, or another value
/// (by its compact JSON).
#[derive(Debug)]
pub enum ContentShape {
    Blocks(Vec<ContentBlock>),
    Other(String),
}

/// How one block is shown: its text, or its JSON.
pub open spec fn block_text(b: ContentBlock) -> Seq<char> {
    match b.text {
        Some(t) => t@,
        None => b.json@,
    }
}

/// How a result's content is shown: the blocks one per line (a lone text
/// block as its bare text, so a JSON text stays one document), or the JSON
/// of content that is not an array.
pub open spec fn display_text_spec(c: ContentShape) -> Seq<char> {
    match c {
        ContentShape::Blocks(bs) => join_with(bs@.map_values(|b: ContentBlock| block_text(b)), "\n"@),
        ContentShape::Other(j) => j@,
    }
}

/// The display text of a tool result's content (see [`display_text_spec`]).
pub fn mcp_content_to_display_text(content: &ContentShape) -> (r: String)
    ensures
        r@ == display_text_spec(*content),
{
    match content {
        ContentShape::Other(j) => j.as_str().to_owned(),
        ContentShape::Blocks(bs) => {
            let mut parts: Vec<String> = Vec::new();
            let mut i: usize = 0;
            while i < bs.len()
                invariant
                    i <= bs@.len(),
                    views(parts@) == bs@.map_values(|b: ContentBlock| block_text(b)).take(i as int),
                decreases bs.len() - i,
            {
                let t = match &bs[i].text {
                    Some(t) => t.as_str().to_owned(),
                    None => bs[i].json.as_str().to_owned(),
                };
                let ghost before = parts@;
                parts.push(t);
                proof {
                    assert(views(parts@) =~= views(before).push(t@));
                    assert(views(parts@) =~= bs@.map_values(|b: ContentBlock| block_text(b)).take(
                        i + 1,
                    ));
                }
                i = i + 1;
            }
            proof {
                assert(bs@.map_values(|b: ContentBlock| block_text(b)).take(bs@.len() as int)
                    =~= bs@.map_values(|b: ContentBlock| block_text(b)));
            }
            join_strings(&parts, "\n")
        },
    }
}

/// The text of a tool result: its content's display text, or the whole
/// result's JSON when it has no `content`.
pub fn tool_result_text(content: &Option<ContentShape>, result_json: &str) -> (r: String)
    ensures
        match content {
            Some(c) => r@ == display_text_spec(*c),
            None => r@ == result_json@,
        },
{
    match content {
        Some(c) => mcp_content_to_display_text(c),
        None => result_json.to_owned(),
    }
}

} // verus!
