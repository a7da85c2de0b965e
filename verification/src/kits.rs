//! Portal kits: installed MCP servers described by a JSON manifest file. This
//! module holds what is decided about them: which manifests load on this
//! platform, what is wrong with one, how kit tools are named and found, and
//! the health of a kit's process across failures and cooldowns.
use vstd::prelude::*;
use crate::config::{default_kits_dir_spec, join_relative, PortalConfig};
use crate::numbers::{decimal, parse_i64, parse_i64_spec, u64_to_string};
use crate::platform::TargetOs;
use crate::tool_catalog::ToolInfo;
use crate::text::{chars_of, push_char, same_text, trim, trim_str, views};

verus! {

/// Consecutive failures after which a kit is marked unhealthy.
pub const MAX_FAILURES: u8 = 3;
/// Seconds a kit's MCP process may take to start.
pub const SPAWN_TIMEOUT_SECS: u64 = 30;
/// After a kit is marked unhealthy, wait this long before giving it another
/// chance so a transient failure does not require a Portal restart to recover.
pub const RECOVERY_COOLDOWN_SECS: u64 = 60;
/// Directories prepended to a kit process's PATH so kits can find common
/// toolchains even when launched from a launchd/systemd context with a minimal PATH.
pub const KIT_EXTRA_PATH: &'static str = "/opt/homebrew/bin:/usr/local/bin:/usr/bin:/bin";
/// Seconds an eager kit may take to start at warmup.
pub const WARMUP_TIMEOUT_SECS: u64 = 10;

/// A tool a kit offers; its parameter schema is JSON text.
#[derive(Clone, Debug)]
pub struct KitToolDef {
    pub name: String,
    pub description: String,
    pub params: String,
}

/// A kit's JSON manifest.
#[derive(Clone, Debug)]
pub struct KitManifest {
    pub name: String,
    pub version: String,
    pub description: Option<String>,
    pub author: Option<String>,
    pub platform: Option<Vec<String>>,
    pub runtime: Option<String>,
    pub command: Vec<String>,
    pub tools: Vec<KitToolDef>,
    pub permissions: Option<Vec<String>>,
    pub workspace: Option<bool>,
    /// When true, Portal pre-spawns this kit's MCP process at startup.
    pub eager: Option<bool>,
}

/// A kit as `kits status` reports it.
#[derive(Clone, Debug)]
pub struct KitStatus {
    pub name: String,
    pub version: String,
    pub tools: usize,
    pub status: String,
}

/// `c` is an ASCII letter or digit.
pub open spec fn is_ascii_alnum(c: char) -> bool {
    ('a' <= c <= 'z') || ('A' <= c <= 'Z') || ('0' <= c <= '9')
}

/// A kit name is non-empty and made of ASCII letters, digits and hyphens.
pub open spec fn valid_kit_name(name: Seq<char>) -> bool {
    name.len() > 0 && forall|i: int| 0 <= i < name.len() ==> is_ascii_alnum(#[trigger] name[i])
        || name[i] == '-'
}

/// Whether `name` is a valid kit name (see [`valid_kit_name`]).
pub fn is_valid_kit_name(name: &str) -> (r: bool)
    ensures
        r == valid_kit_name(name@),
{
    let cs = chars_of(name);
    if cs.len() == 0 {
        return false;
    }
    let mut i: usize = 0;
    while i < cs.len()
        invariant
            i <= cs.len(),
            cs@ == name@,
            forall|k: int| 0 <= k < i ==> is_ascii_alnum(#[trigger] cs@[k]) || cs@[k] == '-',
        decreases cs.len() - i,
    {
        let c = cs[i];
        if !(('a' <= c && c <= 'z') || ('A' <= c && c <= 'Z') || ('0' <= c && c <= '9') || c
            == '-') {
            return false;
        }
        i += 1;
    }
    true
}

/// A kit's name as messages quote it: `'name'`, or `'<unnamed>'`.
pub open spec fn kit_label_spec(name: Seq<char>) -> Seq<char> {
    if name.len() == 0 {
        "'<unnamed>'"@
    } else {
        "'"@ + name + "'"@
    }
}

/// A kit's name as messages quote it.
pub fn kit_label(name: &str) -> (r: String)
    ensures
        r@ == kit_label_spec(name@),
{
    if name.is_empty() {
        String::from_str("'<unnamed>'")
    } else {
        let mut out = String::from_str("'");
        out.append(name);
        out.append("'");
        out
    }
}

/// `parts` joined by `sep`.
pub open spec fn join_with(parts: Seq<Seq<char>>, sep: Seq<char>) -> Seq<char>
    decreases parts.len(),
{
    if parts.len() == 0 {
        Seq::empty()
    } else if parts.len() == 1 {
        parts[0]
    } else {
        join_with(parts.drop_last(), sep) + sep + parts.last()
    }
}

/// `parts` joined by `sep`.
pub fn join_strings(parts: &Vec<String>, sep: &str) -> (r: String)
    ensures
        r@ == join_with(views(parts@), sep@),
{
    let mut out = String::new();
    let mut i: usize = 0;
    while i < parts.len()
        invariant
            i <= parts.len(),
            out@ == join_with(views(parts@).take(i as int), sep@),
        decreases parts.len() - i,
    {
        assert(views(parts@).take(i + 1).drop_last() =~= views(parts@).take(i as int));
        assert(views(parts@).take(i + 1).last() == parts@[i as int]@);
        if i > 0 {
            out.append(sep);
        }
        out.append(parts[i].as_str());
        proof {
            if i == 0 {
                assert(out@ =~= parts@[0]@);
            }
        }
        i += 1;
    }
    assert(views(parts@).take(parts.len() as int) =~= views(parts@));
    out
}

/// A command line as shown in messages: its words joined by spaces, or
/// `<empty>`.
pub fn format_command(command: &Vec<String>) -> (r: String)
    ensures
        command@.len() == 0 ==> r@ == "<empty>"@,
        command@.len() > 0 ==> r@ == join_with(views(command@), " "@),
{
    if command.len() == 0 {
        String::from_str("<empty>")
    } else {
        join_strings(command, " ")
    }
}

/// The program of a command whose existence is worth checking: its first
/// word, unless that is blank.
pub fn command_binary(command: &Vec<String>) -> (r: Option<String>)
    ensures
        command@.len() == 0 ==> r is None,
        command@.len() > 0 && trim(command@[0]@).len() == 0 ==> r is None,
        command@.len() > 0 && trim(command@[0]@).len() > 0 ==> (r matches Some(b) && b@
            == command@[0]@),
{
    if command.len() == 0 {
        return None;
    }
    if trim_str(command[0].as_str()).as_str().is_empty() {
        None
    } else {
        Some(command[0].clone())
    }
}

/// The warnings of a manifest, in order: an invalid name; an empty command,
/// or a command whose program was not found; no tools.
pub open spec fn manifest_warnings_spec(
    name: Seq<char>,
    command: Seq<Seq<char>>,
    binary_found: bool,
    tool_count: nat,
) -> Seq<Seq<char>> {
    let kit = kit_label_spec(name);
    (if valid_kit_name(name) {
        Seq::<Seq<char>>::empty()
    } else {
        seq![
            "kit "@ + kit
                + " has invalid name; expected non-empty ASCII alphanumeric characters and hyphens only"@,
        ]
    }) + (if command.len() == 0 {
        seq!["kit "@ + kit + " command is empty"@]
    } else if !binary_found {
        seq!["kit "@ + kit + " command binary not found: "@ + command[0]]
    } else {
        Seq::<Seq<char>>::empty()
    }) + (if tool_count == 0 {
        seq!["kit "@ + kit + " has no tools defined"@]
    } else {
        Seq::<Seq<char>>::empty()
    })
}

/// What is wrong with `manifest` whose resolved command is `command`;
/// `binary_found` tells whether that command's program exists.
pub fn manifest_validation_warnings(manifest: &KitManifest, command: &Vec<String>, binary_found: bool) -> (r:
    Vec<String>)
    ensures
        views(r@) == manifest_warnings_spec(
            manifest.name@,
            views(command@),
            binary_found,
            manifest.tools@.len(),
        ),
{
    let mut warnings: Vec<String> = Vec::new();
    let kit = kit_label(manifest.name.as_str());
    let ghost w0 = views(warnings@);
    if !is_valid_kit_name(manifest.name.as_str()) {
        let mut m = String::from_str("kit ");
        m.append(kit.as_str());
        m.append(
            " has invalid name; expected non-empty ASCII alphanumeric characters and hyphens only",
        );
        warnings.push(m);
    }
    let ghost w1 = views(warnings@);
    if command.len() == 0 {
        let mut m = String::from_str("kit ");
        m.append(kit.as_str());
        m.append(" command is empty");
        warnings.push(m);
    } else if !binary_found {
        let mut m = String::from_str("kit ");
        m.append(kit.as_str());
        m.append(" command binary not found: ");
        m.append(command[0].as_str());
        assert(views(command@)[0] == command@[0]@);
        warnings.push(m);
    }
    let ghost w2 = views(warnings@);
    if manifest.tools.len() == 0 {
        let mut m = String::from_str("kit ");
        m.append(kit.as_str());
        m.append(" has no tools defined");
        warnings.push(m);
    }
    proof {
        let spec = manifest_warnings_spec(
            manifest.name@,
            views(command@),
            binary_found,
            manifest.tools@.len(),
        );
        assert(views(warnings@) =~= spec);
    }
    warnings
}

/// The platform name kit manifests use for `os`: `darwin`, `linux`,
/// `windows`, or the OS's own name.
pub open spec fn platform_name(os: TargetOs) -> Seq<char> {
    match os {
        TargetOs::MacOs => "darwin"@,
        TargetOs::Linux => "linux"@,
        TargetOs::Windows => "windows"@,
        TargetOs::Other(name) => name@,
    }
}

/// The platform name kit manifests use for `os`.
pub fn current_platform(os: &TargetOs) -> (r: String)
    ensures
        r@ == platform_name(*os),
{
    match os {
        TargetOs::MacOs => String::from_str("darwin"),
        TargetOs::Linux => String::from_str("linux"),
        TargetOs::Windows => String::from_str("windows"),
        TargetOs::Other(name) => name.clone(),
    }
}

/// `c` with ASCII uppercase letters made lowercase.
pub open spec fn lower_ascii(c: char) -> char {
    if 'A' <= c <= 'Z' {
        ((c as u32) + 32) as char
    } else {
        c
    }
}

/// `s` with ASCII uppercase letters made lowercase (`to_ascii_lowercase`).
pub open spec fn lower_ascii_text(s: Seq<char>) -> Seq<char> {
    s.map_values(|c: char| lower_ascii(c))
}

/// Whether a manifest platform entry names `current` (`macos` also names `darwin`).
pub open spec fn platform_entry_matches(entry: Seq<char>, current: Seq<char>) -> bool {
    let n = lower_ascii_text(entry);
    n == current || (current == "darwin"@ && n == "macos"@)
}

/// A manifest loads when it names no platforms or names `current` among them.
pub open spec fn platform_matches_spec(platforms: Option<Seq<Seq<char>>>, current: Seq<char>) -> bool {
    match platforms {
        None => true,
        Some(ps) => names_platform(ps, current),
    }
}

/// Some entry of `ps` names `current`.
pub open spec fn names_platform(ps: Seq<Seq<char>>, current: Seq<char>) -> bool {
    exists|i: int| 0 <= i < ps.len() && #[trigger] platform_entry_matches(ps[i], current)
}

/// A manifest loads when any entry of its platform list, lowercased, is the
/// current platform, whatever entries stand before or after it.
pub proof fn lemma_any_named_platform_loads(ps: Seq<Seq<char>>, i: int, current: Seq<char>)
    requires
        0 <= i < ps.len(),
        lower_ascii_text(ps[i]) == current,
    ensures
        platform_matches_spec(Some(ps), current),
{
    assert(platform_entry_matches(ps[i], current));
}

/// More platform entries never stop a manifest from loading: a list that
/// matches still matches with entries added before and after it.
pub proof fn lemma_more_platforms_keep_match(
    before: Seq<Seq<char>>,
    ps: Seq<Seq<char>>,
    after: Seq<Seq<char>>,
    current: Seq<char>,
)
    requires
        platform_matches_spec(Some(ps), current),
    ensures
        platform_matches_spec(Some(before + ps + after), current),
{
    let i = choose|i: int| 0 <= i < ps.len() && #[trigger] platform_entry_matches(ps[i], current);
    let all = before + ps + after;
    assert(all[before.len() + i] == ps[i]);
    assert(platform_entry_matches(all[before.len() + i], current));
}

/// A manifest whose platform list names none of them does not load: every
/// entry, lowercased, differs from the current platform (and from `macos`
/// on `darwin`).
pub proof fn lemma_unnamed_platform_skipped(ps: Seq<Seq<char>>, current: Seq<char>)
    requires
        forall|i: int|
            0 <= i < ps.len() ==> lower_ascii_text(#[trigger] ps[i]) != current && !(current
                == "darwin"@ && lower_ascii_text(ps[i]) == "macos"@),
    ensures
        !platform_matches_spec(Some(ps), current),
{
}

/// `s` with ASCII letters lowercased.
pub fn to_ascii_lowercase(s: &str) -> (r: String)
    ensures
        r@ == lower_ascii_text(s@),
{
    let cs = chars_of(s);
    let mut out = String::new();
    let mut i: usize = 0;
    while i < cs.len()
        invariant
            i <= cs.len(),
            cs@ == s@,
            out@ == lower_ascii_text(cs@.take(i as int)),
        decreases cs.len() - i,
    {
        let c = cs[i];
        let l = if 'A' <= c && c <= 'Z' {
            match c {
                'A' => 'a',
                'B' => 'b',
                'C' => 'c',
                'D' => 'd',
                'E' => 'e',
                'F' => 'f',
                'G' => 'g',
                'H' => 'h',
                'I' => 'i',
                'J' => 'j',
                'K' => 'k',
                'L' => 'l',
                'M' => 'm',
                'N' => 'n',
                'O' => 'o',
                'P' => 'p',
                'Q' => 'q',
                'R' => 'r',
                'S' => 's',
                'T' => 't',
                'U' => 'u',
                'V' => 'v',
                'W' => 'w',
                'X' => 'x',
                'Y' => 'y',
                _ => 'z',
            }
        } else {
            c
        };
        proof {
            vstd::utf8::char_u32_cast(c, c as u32);
            assert(l == lower_ascii(c)) by {
                if 'A' <= c <= 'Z' {
                    vstd::utf8::char_u32_cast(l, l as u32);
                }
            }
        }
        push_char(&mut out, l);
        assert(lower_ascii_text(cs@.take(i + 1)) =~= lower_ascii_text(cs@.take(i as int)).push(l));
        i += 1;
    }
    assert(cs@.take(cs@.len() as int) =~= cs@);
    out
}

/// Whether a manifest that names `platforms` loads on `current`.
pub fn platform_matches(platforms: &Option<Vec<String>>, current: &str) -> (r: bool)
    ensures
        r == platform_matches_spec(
            match platforms {
                Some(ps) => Some(views(ps@)),
                None => None,
            },
            current@,
        ),
{
    let ps = match platforms {
        None => return true,
        Some(ps) => ps,
    };
    let cur = String::from_str(current);
    let darwin = String::from_str("darwin");
    let macos = String::from_str("macos");
    let mut i: usize = 0;
    while i < ps.len()
        invariant
            i <= ps.len(),
            cur@ == current@,
            *platforms == Some(*ps),
            darwin@ == "darwin"@,
            macos@ == "macos"@,
            forall|k: int| 0 <= k < i ==> !platform_entry_matches(#[trigger] views(ps@)[k], current@),
        decreases ps.len() - i,
    {
        let n = to_ascii_lowercase(ps[i].as_str());
        assert(views(ps@)[i as int] == ps@[i as int]@);
        if n == cur || (cur == darwin && n == macos) {
            assert(n@ == lower_ascii_text(views(ps@)[i as int]));
            assert(n@ == current@ || (current@ == "darwin"@ && n@ == "macos"@));
            assert(platform_entry_matches(views(ps@)[i as int], current@));
            assert(names_platform(views(ps@), current@));
            return true;
        }
        i += 1;
    }
    false
}

/// `~` or a leading `~/` replaced by the home directory, when one is known.
pub open spec fn expand_home_spec(path: Seq<char>, home: Option<Seq<char>>, os: TargetOs) -> Seq<char> {
    match home {
        None => path,
        Some(h) => if path == "~"@ {
            h
        } else if path.len() >= 2 && path.take(2) == "~/"@ {
            join_relative(h, path.skip(2), os)
        } else {
            path
        },
    }
}

/// Expands a leading `~` of `path` to `home` (the user's home directory).
pub fn expand_home(path: &str, home: Option<String>, os: &TargetOs) -> (r: String)
    ensures
        r@ == expand_home_spec(path@, match home {
            Some(h) => Some(h@),
            None => None,
        }, *os),
{
    let h = match home {
        None => return path.to_owned(),
        Some(h) => h,
    };
    let cs = chars_of(path);
    proof {
        reveal_strlit("~");
        reveal_strlit("~/");
    }
    if cs.len() == 1 && cs[0] == '~' {
        assert(path@ =~= "~"@);
        return h;
    }
    proof {
        if path@ == "~"@ {
            assert(cs@[0] == '~');
        }
    }
    if cs.len() >= 2 && cs[0] == '~' && cs[1] == '/' {
        assert(cs@.take(2) =~= "~/"@);
        let rest = crate::text::string_of_range(&cs, 2, cs.len());
        assert(cs@.subrange(2, cs@.len() as int) =~= path@.skip(2));
        crate::config::resolve_relative(h.as_str(), rest.as_str(), os)
    } else {
        proof {
            if path@.len() >= 2 && path@.take(2) == "~/"@ {
                assert(cs@.take(2)[0] == '~' && cs@.take(2)[1] == '/');
            }
        }
        path.to_owned()
    }
}

/// The directory kits are installed in: the configured one (or the default),
/// with `~` expanded against `home`.
pub fn kits_dir(config: &PortalConfig, home: Option<String>, os: &TargetOs) -> (r: String)
    ensures
        r@ == expand_home_spec(
            match config.kits_dir {
                Some(d) => d@,
                None => default_kits_dir_spec(),
            },
            match home {
                Some(h) => Some(h@),
                None => None,
            },
            *os,
        ),
{
    match &config.kits_dir {
        Some(d) => expand_home(d.as_str(), home, os),
        None => {
            let d = crate::config::default_kits_dir();
            expand_home(d.as_str(), home, os)
        },
    }
}

/// A kit name as it prefixes tool names: hyphens become underscores.
pub open spec fn slug_spec(name: Seq<char>) -> Seq<char> {
    name.map_values(|c: char| if c == '-' {
        '_'
    } else {
        c
    })
}

/// Normalize kit name for tool routing: replace hyphens with underscores.
pub fn kit_slug(name: &str) -> (r: String)
    ensures
        r@ == slug_spec(name@),
{
    let cs = chars_of(name);
    let mut out = String::new();
    let mut i: usize = 0;
    while i < cs.len()
        invariant
            i <= cs.len(),
            cs@ == name@,
            out@ == slug_spec(cs@.take(i as int)),
        decreases cs.len() - i,
    {
        let c = if cs[i] == '-' {
            '_'
        } else {
            cs[i]
        };
        push_char(&mut out, c);
        assert(slug_spec(cs@.take(i + 1)) =~= slug_spec(cs@.take(i as int)).push(c));
        i += 1;
    }
    assert(cs@.take(cs@.len() as int) =~= cs@);
    out
}

/// The name a kit's tool is listed and called by: `<kit slug>_<tool>`.
pub open spec fn routed_name(kit: Seq<char>, tool: Seq<char>) -> Seq<char> {
    slug_spec(kit) + "_"@ + tool
}

/// The name a kit's tool is listed and called by.
pub fn routed_tool_name(kit: &str, tool: &str) -> (r: String)
    ensures
        r@ == routed_name(kit@, tool@),
{
    let mut out = kit_slug(kit);
    out.append("_");
    out.append(tool);
    out
}

/// A kit's tools as listed: each named `<kit slug>_<tool>`, with the
/// tool's description and parameter schema.
pub open spec fn kit_tool_views(m: KitManifest) -> Seq<(Seq<char>, Seq<char>, Seq<char>)> {
    m.tools@.map_values(|t: KitToolDef| (routed_name(m.name@, t.name@), t.description@, t.params@))
}

/// The listing of a kit's tools (see [`kit_tool_views`]).
pub fn kit_tool_infos(manifest: &KitManifest) -> (r: Vec<ToolInfo>)
    ensures
        r@.map_values(|t: ToolInfo| (t.name@, t.description@, t.input_schema@)) == kit_tool_views(*manifest),
{
    let mut out: Vec<ToolInfo> = Vec::new();
    let mut i: usize = 0;
    while i < manifest.tools.len()
        invariant
            i <= manifest.tools@.len(),
            out@.len() == i,
            out@.map_values(|t: ToolInfo| (t.name@, t.description@, t.input_schema@)) == kit_tool_views(
                *manifest,
            ).take(i as int),
        decreases manifest.tools.len() - i,
    {
        let t = &manifest.tools[i];
        let info = ToolInfo {
            name: routed_tool_name(manifest.name.as_str(), t.name.as_str()),
            description: t.description.as_str().to_owned(),
            input_schema: t.params.as_str().to_owned(),
        };
        let ghost before = out@;
        out.push(info);
        proof {
            let f = |t: ToolInfo| (t.name@, t.description@, t.input_schema@);
            assert(out@ == before.push(info));
            assert(before.map_values(f) == kit_tool_views(*manifest).take(i as int));
            assert forall|k: int| 0 <= k < i + 1 implies #[trigger] out@.map_values(f)[k] == kit_tool_views(
                *manifest,
            ).take(i + 1)[k] by {
                if k < i {
                    assert(out@[k] == before[k]);
                    assert(before.map_values(f)[k] == kit_tool_views(*manifest).take(i as int)[k]);
                } else {
                    assert(out@[k] == info);
                    assert(manifest.tools@[k] == *t);
                }
            }
            assert(out@.map_values(f) =~= kit_tool_views(*manifest).take(i + 1));
        }
        i = i + 1;
    }
    assert(kit_tool_views(*manifest).take(i as int) =~= kit_tool_views(*manifest));
    out
}

/// The address a kit's call count is reported to.
pub fn heartbeat_url(grove_url: &str, kit_name: &str, token: &str) -> (r: String)
    ensures
        r@ == grove_url@ + "/api/grove/"@ + kit_name@ + "/heartbeat?token="@ + token@,
{
    let mut m = grove_url.to_owned();
    m.append("/api/grove/");
    m.append(kit_name);
    m.append("/heartbeat?token=");
    m.append(token);
    m
}

/// The body of a heartbeat report: `{"calls":n}`.
pub fn heartbeat_body(calls: u64) -> (r: String)
    ensures
        r@ == "{\"calls\":"@ + decimal(calls as nat) + "}"@,
{
    let mut m = String::from_str("{\"calls\":");
    m.append(u64_to_string(calls).as_str());
    m.append("}");
    m
}

/// A kit and the names of its tools, in the order the manager keeps them.
#[derive(Clone, Debug)]
pub struct KitTools {
    pub kit: String,
    pub tools: Vec<String>,
}

/// The (kit, tool) that `query` calls: the first, in order, whose routed
/// name equals `query` with hyphens read as underscores.
pub open spec fn kit_tool_match(kits: Seq<KitTools>, query: Seq<char>, k: int, t: int) -> bool {
    &&& 0 <= k < kits.len()
    &&& 0 <= t < kits[k].tools@.len()
    &&& routed_name(kits[k].kit@, kits[k].tools@[t]@) == slug_spec(query)
}

/// Index pair `(k, t)` comes before `(k2, t2)`.
pub open spec fn before(k: int, t: int, k2: int, t2: int) -> bool {
    k < k2 || (k == k2 && t < t2)
}

/// Finds the kit tool that `tool_name` calls (see [`kit_tool_match`]).
pub fn resolve_tool(kits: &Vec<KitTools>, tool_name: &str) -> (r: Option<(String, String)>)
    ensures
        match r {
            Some((kit, tool)) => exists|k: int, t: int|
                #![trigger kit_tool_match(kits@, tool_name@, k, t)]
                kit_tool_match(kits@, tool_name@, k, t) && kit@ == kits@[k].kit@ && tool@
                    == kits@[k].tools@[t]@ && forall|k2: int, t2: int|
                    #![trigger kit_tool_match(kits@, tool_name@, k2, t2)]
                    before(k2, t2, k, t) ==> !kit_tool_match(kits@, tool_name@, k2, t2),
            None => forall|k: int, t: int| !kit_tool_match(kits@, tool_name@, k, t),
        },
{
    let query = kit_slug(tool_name);
    let mut k: usize = 0;
    while k < kits.len()
        invariant
            k <= kits.len(),
            query@ == slug_spec(tool_name@),
            forall|k2: int, t2: int|
                #![trigger kit_tool_match(kits@, tool_name@, k2, t2)]
                0 <= k2 < k ==> !kit_tool_match(kits@, tool_name@, k2, t2),
        decreases kits.len() - k,
    {
        let kit = &kits[k];
        let mut t: usize = 0;
        while t < kit.tools.len()
            invariant
                k < kits.len(),
                *kit == kits@[k as int],
                t <= kit.tools@.len(),
                query@ == slug_spec(tool_name@),
                forall|k2: int, t2: int|
                    #![trigger kit_tool_match(kits@, tool_name@, k2, t2)]
                    0 <= k2 < k ==> !kit_tool_match(kits@, tool_name@, k2, t2),
                forall|t2: int|
                    #![trigger kit_tool_match(kits@, tool_name@, k as int, t2)]
                    0 <= t2 < t ==> !kit_tool_match(kits@, tool_name@, k as int, t2),
            decreases kit.tools.len() - t,
        {
            let routed = routed_tool_name(kit.kit.as_str(), kit.tools[t].as_str());
            if routed == query {
                let r = (kit.kit.clone(), kit.tools[t].clone());
                assert(kit_tool_match(kits@, tool_name@, k as int, t as int));
                return Some(r);
            }
            assert(!kit_tool_match(kits@, tool_name@, k as int, t as int));
            t += 1;
        }
        k += 1;
    }
    None
}

/// The health of a kit's process, as the manager tracks it.
#[derive(Clone, Copy, Debug, PartialEq, Eq, Structural)]
pub struct KitHealth {
    /// Failures since the last success or recovery.
    pub failure_count: u8,
    /// Calls are refused until the cooldown has elapsed.
    pub unhealthy: bool,
    /// Clock reading, in seconds, of the latest failure.
    pub last_failure_at: Option<u64>,
    /// Calls since the last heartbeat report.
    pub unsent_calls: u64,
}

/// What starting a call on a kit does first.
#[derive(Clone, Copy, Debug, PartialEq, Eq, Structural)]
pub enum SpawnDecision {
    /// The process is alive; use it.
    UseRunning,
    /// Start the process.
    Spawn,
    /// Refuse: the kit is unhealthy.
    RefuseUnhealthy,
    /// Refuse: the kit failed `MAX_FAILURES` times and is now unhealthy.
    RefuseAfterFailures,
}

impl KitHealth {
    /// A kit nobody called yet; unhealthy from the start when its command is
    /// known not to run.
    pub fn new(pre_unhealthy: bool) -> (r: Self)
        ensures
            r == (KitHealth {
                failure_count: 0,
                unhealthy: pre_unhealthy,
                last_failure_at: None,
                unsent_calls: 0,
            }),
    {
        KitHealth { failure_count: 0, unhealthy: pre_unhealthy, last_failure_at: None, unsent_calls: 0 }
    }

    /// Whether the cooldown after the latest failure has elapsed at `now`.
    pub open spec fn cooled_down(self, now: u64) -> bool {
        self.last_failure_at matches Some(at) && now >= at && now - at >= RECOVERY_COOLDOWN_SECS
    }

    /// Reset an unhealthy kit back to a retryable state once the recovery
    /// cooldown has elapsed since its last recorded failure.
    pub fn recover_if_cooled_down(&mut self, now: u64)
        ensures
            old(self).unhealthy && old(self).cooled_down(now) ==> *final(self) == (KitHealth {
                unhealthy: false,
                failure_count: 0,
                ..*old(self)
            }),
            !(old(self).unhealthy && old(self).cooled_down(now)) ==> *final(self) == *old(self),
            *final(self) == after_recovery_check(*old(self), now),
    {
        if !self.unhealthy {
            return;
        }
        let cooled = match self.last_failure_at {
            Some(at) => now >= at && now - at >= RECOVERY_COOLDOWN_SECS,
            None => false,
        };
        if cooled {
            self.unhealthy = false;
            self.failure_count = 0;
        }
    }

    /// A failed start or call at `now`: one more failure (saturating), and
    /// unhealthy from `MAX_FAILURES` on.
    pub fn record_failure(&mut self, now: u64)
        ensures
            final(self).failure_count == if old(self).failure_count == u8::MAX {
                u8::MAX as int
            } else {
                old(self).failure_count + 1
            },
            final(self).last_failure_at == Some(now),
            final(self).unhealthy == (old(self).unhealthy || final(self).failure_count
                >= MAX_FAILURES),
            final(self).unsent_calls == old(self).unsent_calls,
            *final(self) == after_failure(*old(self), now),
    {
        self.failure_count = if self.failure_count == u8::MAX {
            u8::MAX
        } else {
            self.failure_count + 1
        };
        self.last_failure_at = Some(now);
        if self.failure_count >= MAX_FAILURES {
            self.unhealthy = true;
        }
    }

    /// A successful call: failures are forgotten and the call is counted.
    pub fn record_success(&mut self)
        ensures
            final(self).failure_count == 0,
            final(self).unhealthy == old(self).unhealthy,
            final(self).last_failure_at == old(self).last_failure_at,
            final(self).unsent_calls == if old(self).unsent_calls == u64::MAX {
                u64::MAX as int
            } else {
                old(self).unsent_calls + 1
            },
    {
        self.failure_count = 0;
        self.unsent_calls = if self.unsent_calls == u64::MAX {
            u64::MAX
        } else {
            self.unsent_calls + 1
        };
    }

    /// Before a call at `now` on a kit whose process is `alive`: recover
    /// after the cooldown, refuse an unhealthy kit, use a live process,
    /// else spawn — unless `MAX_FAILURES` were reached, which marks it unhealthy.
    pub fn spawn_decision(&mut self, now: u64, alive: bool) -> (r: SpawnDecision)
        ensures
            ({
                let h = if old(self).unhealthy && old(self).cooled_down(now) {
                    KitHealth { unhealthy: false, failure_count: 0, ..*old(self) }
                } else {
                    *old(self)
                };
                if h.unhealthy {
                    r == SpawnDecision::RefuseUnhealthy && *final(self) == h
                } else if alive {
                    r == SpawnDecision::UseRunning && *final(self) == h
                } else if h.failure_count >= MAX_FAILURES {
                    r == SpawnDecision::RefuseAfterFailures && *final(self) == (KitHealth {
                        unhealthy: true,
                        ..h
                    })
                } else {
                    r == SpawnDecision::Spawn && *final(self) == h
                }
            }),
    {
        self.recover_if_cooled_down(now);
        if self.unhealthy {
            return SpawnDecision::RefuseUnhealthy;
        }
        if alive {
            return SpawnDecision::UseRunning;
        }
        if self.failure_count >= MAX_FAILURES {
            self.unhealthy = true;
            return SpawnDecision::RefuseAfterFailures;
        }
        SpawnDecision::Spawn
    }

    /// Takes the unsent call count for a heartbeat report, leaving zero.
    pub fn take_unsent(&mut self) -> (r: u64)
        ensures
            r == old(self).unsent_calls,
            *final(self) == (KitHealth { unsent_calls: 0, ..*old(self) }),
    {
        let n = self.unsent_calls;
        self.unsent_calls = 0;
        n
    }

    /// Puts back `calls` whose heartbeat report failed (saturating).
    pub fn restore_unsent(&mut self, calls: u64)
        ensures
            final(self).unsent_calls == if old(self).unsent_calls + calls > u64::MAX {
                u64::MAX as int
            } else {
                old(self).unsent_calls + calls
            },
            *final(self) == (KitHealth { unsent_calls: final(self).unsent_calls, ..*old(self) }),
    {
        self.unsent_calls = if self.unsent_calls > u64::MAX - calls {
            u64::MAX
        } else {
            self.unsent_calls + calls
        };
    }
}

/// The status word of a kit: `unhealthy`, else `healthy` while its process
/// is alive, else `not-started`.
pub fn status_text(unhealthy: bool, alive: bool) -> (r: &'static str)
    ensures
        r@ == if unhealthy {
            "unhealthy"@
        } else if alive {
            "healthy"@
        } else {
            "not-started"@
        },
{
    if unhealthy {
        "unhealthy"
    } else if alive {
        "healthy"
    } else {
        "not-started"
    }
}

/// A kit's PATH: the extra toolchain directories before the inherited PATH
/// (alone when that is unset or empty).
pub fn kit_path(existing: Option<String>) -> (r: String)
    ensures
        match existing {
            Some(p) => if p@.len() > 0 {
                r@ == KIT_EXTRA_PATH@ + ":"@ + p@
            } else {
                r@ == KIT_EXTRA_PATH@
            },
            None => r@ == KIT_EXTRA_PATH@,
        },
{
    match existing {
        Some(p) => if p.as_str().is_empty() {
            String::from_str(KIT_EXTRA_PATH)
        } else {
            let mut out = String::from_str(KIT_EXTRA_PATH);
            out.append(":");
            out.append(p.as_str());
            out
        },
        None => String::from_str(KIT_EXTRA_PATH),
    }
}

/// The environment a kit process gets: its name, its directory, and PATH.
pub fn kit_env(name: &str, kit_dir: &str, existing_path: Option<String>) -> (r: Vec<(String, String)>)
    ensures
        r@.len() == 3,
        r@[0].0@ == "PORTAL_KIT_NAME"@ && r@[0].1@ == name@,
        r@[1].0@ == "PORTAL_KIT_DIR"@ && r@[1].1@ == kit_dir@,
        r@[2].0@ == "PATH"@ && r@[2].1@ == kit_path_spec(existing_path),
{
    let mut env: Vec<(String, String)> = Vec::new();
    env.push((String::from_str("PORTAL_KIT_NAME"), name.to_owned()));
    env.push((String::from_str("PORTAL_KIT_DIR"), kit_dir.to_owned()));
    env.push((String::from_str("PATH"), kit_path(existing_path)));
    env
}

/// What [`kit_path`] gives for `existing`.
pub open spec fn kit_path_spec(existing: Option<String>) -> Seq<char> {
    match existing {
        Some(p) => if p@.len() > 0 {
            KIT_EXTRA_PATH@ + ":"@ + p@
        } else {
            KIT_EXTRA_PATH@
        },
        None => KIT_EXTRA_PATH@,
    }
}

/// The message of a call refused because the kit is unhealthy.
pub fn unhealthy_message(name: &str, command: &Vec<String>) -> (r: String)
    ensures
        r@ == "Kit '"@ + name@ + "' is unhealthy. Command: "@ + (if command@.len() == 0 {
            "<empty>"@
        } else {
            join_with(views(command@), " "@)
        })
            + ". Check that the command exists and the MCP server implements the stdio protocol."@,
{
    let mut m = String::from_str("Kit '");
    m.append(name);
    m.append("' is unhealthy. Command: ");
    m.append(format_command(command).as_str());
    m.append(". Check that the command exists and the MCP server implements the stdio protocol.");
    m
}

/// The message of a call refused after `failures` failed starts.
pub fn failed_restarts_message(name: &str, failures: u8, command: &Vec<String>) -> (r: String)
    ensures
        r@ == "Kit '"@ + name@ + "' is unhealthy after "@ + decimal(failures as nat)
            + " failed restart attempts. Command: "@ + (if command@.len() == 0 {
            "<empty>"@
        } else {
            join_with(views(command@), " "@)
        })
            + ". Check that the command exists and the MCP server implements the stdio protocol."@,
{
    let mut m = String::from_str("Kit '");
    m.append(name);
    m.append("' is unhealthy after ");
    m.append(u64_to_string(failures as u64).as_str());
    m.append(" failed restart attempts. Command: ");
    m.append(format_command(command).as_str());
    m.append(". Check that the command exists and the MCP server implements the stdio protocol.");
    m
}

/// A kit whose process does not run from the start: no command, or a
/// non-blank program that was not found.
pub fn pre_unhealthy(command: &Vec<String>, binary_found: bool) -> (r: bool)
    ensures
        r == (command@.len() == 0 || (command@[0]@.len() > 0 && !binary_found)),
{
    command.len() == 0 || (!command[0].as_str().is_empty() && !binary_found)
}


/// The path probed for a kit's program: the program itself when it is
/// absolute, else the program under the kit's directory.
pub open spec fn command_probe_spec(kit_dir: Seq<char>, program: Seq<char>, os: TargetOs) -> Seq<char> {
    crate::custom::path_join(kit_dir, program, os)
}

/// True when `s` holds `/` or `\`.
pub open spec fn has_path_separator(s: Seq<char>) -> bool {
    exists|i: int| 0 <= i < s.len() && (s[i] == '/' || s[i] == '\\')
}

/// The path to probe for the program of `command` (none for an empty
/// command): see [`command_probe_spec`].
pub fn command_probe(kit_dir: &str, command: &Vec<String>, os: &TargetOs) -> (r: Option<String>)
    ensures
        command@.len() == 0 ==> r is None,
        command@.len() > 0 ==> (r matches Some(p) && p@ == command_probe_spec(
            kit_dir@,
            command@[0]@,
            *os,
        )),
{
    if command.len() == 0 {
        return None;
    }
    if crate::config::path_is_absolute(command[0].as_str(), os) {
        Some(command[0].as_str().to_owned())
    } else {
        Some(crate::config::resolve_relative(kit_dir, command[0].as_str(), os))
    }
}

/// The program a kit runs: an absolute program as found (when the probe
/// found it), else as written; a relative one found under the kit's
/// directory as found there, else under the kit's directory when it holds a
/// path separator, else as found on PATH (Windows looks there), else as
/// written. Arguments are kept.
pub open spec fn resolved_program(
    kit_dir: Seq<char>,
    program: Seq<char>,
    os: TargetOs,
    probe_found: Option<Seq<char>>,
    path_found: Option<Seq<char>>,
) -> Seq<char> {
    if crate::config::is_absolute_path(program, os) {
        match probe_found {
            Some(p) => p,
            None => program,
        }
    } else {
        match probe_found {
            Some(p) => p,
            None => if has_path_separator(program) {
                crate::config::join_relative(kit_dir, program, os)
            } else {
                match path_found {
                    Some(p) => p,
                    None => program,
                }
            },
        }
    }
}

/// The command a kit runs (see [`resolved_program`]): `probe_found` is
/// what the probe of [`command_probe`] found, `path_found` what a PATH
/// search for the program found.
pub fn resolve_command(
    kit_dir: &str,
    command: &Vec<String>,
    os: &TargetOs,
    probe_found: Option<String>,
    path_found: Option<String>,
) -> (r: Vec<String>)
    ensures
        views(r@).len() == views(command@).len(),
        command@.len() > 0 ==> views(r@) == views(command@).update(
            0,
            resolved_program(
                kit_dir@,
                command@[0]@,
                *os,
                match probe_found {
                    Some(p) => Some(p@),
                    None => None,
                },
                match path_found {
                    Some(p) => Some(p@),
                    None => None,
                },
            ),
        ),
{
    let mut out: Vec<String> = Vec::new();
    let mut i: usize = 0;
    while i < command.len()
        invariant
            i <= command@.len(),
            views(out@) == views(command@).take(i as int),
        decreases command.len() - i,
    {
        let s = command[i].as_str().to_owned();
        let ghost before = out@;
        out.push(s);
        proof {
            assert(views(out@) =~= views(before).push(s@));
            assert(views(out@) =~= views(command@).take(i + 1));
        }
        i = i + 1;
    }
    proof {
        assert(views(command@).take(command@.len() as int) =~= views(command@));
    }
    if command.len() == 0 {
        return out;
    }
    let program = command[0].as_str();
    let resolved: String = if crate::config::path_is_absolute(program, os) {
        match probe_found {
            Some(p) => p,
            None => program.to_owned(),
        }
    } else {
        match probe_found {
            Some(p) => p,
            None => {
                let cs = chars_of(program);
                let mut sep = false;
                let mut k: usize = 0;
                while k < cs.len()
                    invariant
                        cs@ == program@,
                        k <= cs@.len(),
                        sep == exists|j: int| 0 <= j < k && (cs@[j] == '/' || cs@[j] == '\\'),
                    decreases cs.len() - k,
                {
                    if cs[k] == '/' || cs[k] == '\\' {
                        sep = true;
                    }
                    k = k + 1;
                }
                if sep {
                    crate::config::resolve_relative(kit_dir, program, os)
                } else {
                    match path_found {
                        Some(p) => p,
                        None => program.to_owned(),
                    }
                }
            },
        }
    };
    let ghost before = out@;
    out.set(0, resolved);
    proof {
        assert(views(out@) =~= views(before).update(0, resolved@));
    }
    out
}

/// Where to look for a program: at its path when it is absolute or holds a
/// path separator, else on PATH.
pub fn looks_up_at_path(binary: &str, os: &TargetOs) -> (r: bool)
    ensures
        r == (crate::config::is_absolute_path(binary@, *os) || has_path_separator(binary@)),
{
    if crate::config::path_is_absolute(binary, os) {
        return true;
    }
    let cs = chars_of(binary);
    let mut k: usize = 0;
    while k < cs.len()
        invariant
            cs@ == binary@,
            k <= cs@.len(),
            forall|j: int| 0 <= j < k ==> !(cs@[j] == '/' || cs@[j] == '\\'),
        decreases cs.len() - k,
    {
        if cs[k] == '/' || cs[k] == '\\' {
            return true;
        }
        k = k + 1;
    }
    false
}


/// A kit's slug holds no hyphen.
pub proof fn lemma_slug_has_no_hyphen(name: Seq<char>)
    ensures
        forall|i: int| 0 <= i < slug_spec(name).len() ==> #[trigger] slug_spec(name)[i] != '-',
{
}

/// The health after a failure at `now`: one more failure (saturating), the
/// failure time recorded, unhealthy from `MAX_FAILURES` failures on.
pub open spec fn after_failure(h: KitHealth, now: u64) -> KitHealth {
    let count = if h.failure_count == u8::MAX {
        u8::MAX
    } else {
        (h.failure_count + 1) as u8
    };
    KitHealth {
        failure_count: count,
        unhealthy: h.unhealthy || count >= MAX_FAILURES,
        last_failure_at: Some(now),
        unsent_calls: h.unsent_calls,
    }
}

/// The health after the cooldown check at `now`: an unhealthy kit whose
/// cooldown has elapsed is healthy again with no failures counted.
pub open spec fn after_recovery_check(h: KitHealth, now: u64) -> KitHealth {
    if h.unhealthy && h.cooled_down(now) {
        KitHealth { unhealthy: false, failure_count: 0, ..h }
    } else {
        h
    }
}

/// `MAX_FAILURES` failures in a row make a kit unhealthy.
pub proof fn lemma_failures_make_unhealthy(h: KitHealth, t1: u64, t2: u64, t3: u64)
    ensures
        after_failure(after_failure(after_failure(h, t1), t2), t3).unhealthy,
{
}

/// An unhealthy kit is given another chance once the cooldown after its
/// last failure has elapsed: healthy, with its failures forgotten.
pub proof fn lemma_cooldown_restores(h: KitHealth, t: u64, now: u64)
    requires
        after_failure(h, t).unhealthy,
        now >= t,
        now - t >= RECOVERY_COOLDOWN_SECS,
    ensures
        !after_recovery_check(after_failure(h, t), now).unhealthy,
        after_recovery_check(after_failure(h, t), now).failure_count == 0,
{
}

/// Within the cooldown an unhealthy kit stays unhealthy.
pub proof fn lemma_unhealthy_within_cooldown(h: KitHealth, t: u64, now: u64)
    requires
        after_failure(h, t).unhealthy,
        now >= t,
        now - t < RECOVERY_COOLDOWN_SECS,
    ensures
        after_recovery_check(after_failure(h, t), now).unhealthy,
{
}

/// What becomes of a string argument whose parameter schema names a type.
#[derive(Debug, PartialEq, Eq, Structural)]
pub enum ArgCoercion {
    /// Replaced by this integer.
    Integer(i64),
    /// Replaced by the number the string reads as, when it reads as one
    /// (`f64` parsing is the caller's).
    Number,
    /// Replaced by this boolean.
    Boolean(bool),
    /// Replaced by the JSON array the string holds.
    Array,
    /// Left as it is.
    Keep,
}

/// Whether `s` is the JSON text of an array, as `serde_json` reads it.
pub uninterp spec fn json_array_text(s: Seq<char>) -> bool;

/// `serde_json::from_str::<Value>`: whether `s` parses, and to an array
/// (named by [`json_array_text`]).
#[verifier::external_body]
fn parses_as_json_array(s: &str) -> (r: bool)
    ensures
        r == json_array_text(s@),
{
    matches!(serde_json::from_str::<serde_json::Value>(s), Ok(serde_json::Value::Array(_)))
}

/// The coercion of the string argument `s` whose schema type is `schema_type`:
/// `"integer"` by `str::parse::<i64>`, `"number"` by the caller's float
/// parse, `"boolean"` from exactly `true` or `false`, `"array"` from JSON
/// array text; anything else, or a string that does not read so, is kept.
pub open spec fn coercion_spec(schema_type: Seq<char>, s: Seq<char>) -> ArgCoercion {
    if schema_type == "integer"@ {
        match parse_i64_spec(s) {
            Some(v) => ArgCoercion::Integer(v as i64),
            None => ArgCoercion::Keep,
        }
    } else if schema_type == "number"@ {
        ArgCoercion::Number
    } else if schema_type == "boolean"@ {
        if s == "true"@ {
            ArgCoercion::Boolean(true)
        } else if s == "false"@ {
            ArgCoercion::Boolean(false)
        } else {
            ArgCoercion::Keep
        }
    } else if schema_type == "array"@ {
        if json_array_text(s) {
            ArgCoercion::Array
        } else {
            ArgCoercion::Keep
        }
    } else {
        ArgCoercion::Keep
    }
}

/// How a kit tool's string argument `s` is coerced to the type its schema
/// names (models send numbers and booleans as strings).
pub fn coerce_string_argument(schema_type: &str, s: &str) -> (r: ArgCoercion)
    ensures
        r == coercion_spec(schema_type@, s@),
{
    if same_text(schema_type, "integer") {
        match parse_i64(s) {
            Some(v) => ArgCoercion::Integer(v),
            None => ArgCoercion::Keep,
        }
    } else if same_text(schema_type, "number") {
        ArgCoercion::Number
    } else if same_text(schema_type, "boolean") {
        if same_text(s, "true") {
            ArgCoercion::Boolean(true)
        } else if same_text(s, "false") {
            ArgCoercion::Boolean(false)
        } else {
            ArgCoercion::Keep
        }
    } else if same_text(schema_type, "array") {
        if parses_as_json_array(s) {
            ArgCoercion::Array
        } else {
            ArgCoercion::Keep
        }
    } else {
        ArgCoercion::Keep
    }
}

} // verus!
