//! How a shell command is launched, the same way for foreground exec and
//! background sessions: the arguments of each shell, the PowerShell script
//! wrapper, and the environment the command gets.
use vstd::prelude::*;
use base64::Engine;
use crate::exec_policy::ExecShell;
use crate::platform::TargetOs;
use crate::text::{chars_of, pair_views, push_pair};

verus! {

/// One argument of the shell process: `Raw` arguments reach Windows `cmd`
/// exactly as written; the others are quoted by the platform as usual.
#[derive(Clone, Debug)]
pub enum ShellArg {
    Plain(String),
    Raw(String),
}

/// The text of an argument.
pub open spec fn arg_text(a: ShellArg) -> Seq<char> {
    match a {
        ShellArg::Plain(s) => s@,
        ShellArg::Raw(s) => s@,
    }
}

/// The preamble PowerShell runs before a command: UTF-8 console and UTF-8
/// defaults of the text cmdlets.
pub const POWERSHELL_PREAMBLE: &'static str = "$OutputEncoding = [Console]::OutputEncoding = [Console]::InputEncoding = [System.Text.UTF8Encoding]::new($false);\n$PSDefaultParameterValues['Get-Content:Encoding'] = 'UTF8';\n$PSDefaultParameterValues['Set-Content:Encoding'] = 'UTF8';\n$PSDefaultParameterValues['Add-Content:Encoding'] = 'UTF8';\n$PSDefaultParameterValues['Out-File:Encoding'] = 'UTF8';\n";

/// The little-endian bytes of a UTF-16 code unit.
pub open spec fn unit_le(u: u16) -> Seq<u8> {
    seq![(u % 256) as u8, (u / 256) as u8]
}

/// The bytes of one character in UTF-16LE.
pub open spec fn char_utf16le(c: char) -> Seq<u8> {
    let v = c as u32;
    if v < 0x10000 {
        unit_le(v as u16)
    } else {
        let u = (v - 0x10000) as u32;
        unit_le((0xd800 + u / 0x400) as u16) + unit_le((0xdc00 + u % 0x400) as u16)
    }
}

/// `s` in UTF-16, little-endian bytes (`encode_utf16` then `to_le_bytes`).
pub open spec fn utf16le_bytes(s: Seq<char>) -> Seq<u8>
    decreases s.len(),
{
    if s.len() == 0 {
        Seq::empty()
    } else {
        utf16le_bytes(s.drop_last()) + char_utf16le(s.last())
    }
}

/// Appends the little-endian bytes of `u`.
fn push_unit(out: &mut Vec<u8>, u: u16)
    ensures
        final(out)@ == old(out)@ + unit_le(u),
{
    out.push((u % 256) as u8);
    out.push((u / 256) as u8);
    assert(final(out)@ =~= old(out)@ + unit_le(u));
}

/// `s` encoded as UTF-16LE bytes.
pub fn utf16le_of(s: &str) -> (r: Vec<u8>)
    ensures
        r@ == utf16le_bytes(s@),
{
    let cs = chars_of(s);
    let mut out: Vec<u8> = Vec::new();
    let mut i: usize = 0;
    while i < cs.len()
        invariant
            i <= cs.len(),
            cs@ == s@,
            out@ == utf16le_bytes(cs@.take(i as int)),
        decreases cs.len() - i,
    {
        assert(cs@.take(i + 1).drop_last() =~= cs@.take(i as int));
        let c = cs[i];
        proof {
            vstd::utf8::char_is_scalar(c);
        }
        let v = c as u32;
        if v < 0x10000 {
            push_unit(&mut out, v as u16);
        } else {
            let u = v - 0x10000;
            push_unit(&mut out, (0xd800 + u / 0x400) as u16);
            push_unit(&mut out, (0xdc00 + u % 0x400) as u16);
        }
        i += 1;
    }
    assert(cs@.take(cs@.len() as int) =~= cs@);
    out
}

/// The standard base64 text of `b` (with padding), as the `base64` crate writes it.
pub uninterp spec fn base64_standard(b: Seq<u8>) -> Seq<char>;

/// `base64::engine::general_purpose::STANDARD.encode`: `b` in base64 with
/// the standard alphabet and padding; named by [`base64_standard`].
#[verifier::external_body]
fn base64_encode(b: &[u8]) -> (r: String)
    ensures
        r@ == base64_standard(b@),
{
    base64::engine::general_purpose::STANDARD.encode(b)
}

/// The PowerShell script that runs `command`: the UTF-8 preamble, then the command.
pub open spec fn powershell_script(command: Seq<char>) -> Seq<char> {
    POWERSHELL_PREAMBLE@ + command
}

/// The `-EncodedCommand` argument that runs `command` under PowerShell:
/// the script in UTF-16LE, in base64.
pub fn powershell_encoded_command(command: &str) -> (r: String)
    ensures
        r@ == base64_standard(utf16le_bytes(powershell_script(command@))),
{
    let mut script = String::from_str(POWERSHELL_PREAMBLE);
    script.append(command);
    let bytes = utf16le_of(script.as_str());
    base64_encode(bytes.as_slice())
}

/// The arguments of the shell process that runs `command`: `cmd /D /S /C
/// "<command>"` verbatim on Windows (cmd strips exactly that one pair of
/// quotes), PowerShell's flags and the encoded script, or `sh -c <command>`.
pub open spec fn shell_args_spec(command: Seq<char>, shell: ExecShell, os: TargetOs) -> Seq<Seq<char>> {
    if os is Windows {
        match shell {
            ExecShell::Default => seq!["/D /S /C"@, "\""@ + command + "\""@],
            ExecShell::PowerShell => seq![
                "-NoLogo"@,
                "-NoProfile"@,
                "-NonInteractive"@,
                "-EncodedCommand"@,
                base64_standard(utf16le_bytes(powershell_script(command))),
            ],
        }
    } else {
        seq!["-c"@, command]
    }
}

/// The arguments of the shell process (see [`shell_args_spec`]); on Windows
/// `cmd`'s arguments are raw.
pub fn shell_args(command: &str, shell: ExecShell, os: &TargetOs) -> (r: Vec<ShellArg>)
    ensures
        r@.len() == shell_args_spec(command@, shell, *os).len(),
        forall|i: int| 0 <= i < r@.len() ==> arg_text(#[trigger] r@[i]) == shell_args_spec(
            command@,
            shell,
            *os,
        )[i],
        (os is Windows && shell == ExecShell::Default) ==> forall|i: int|
            0 <= i < r@.len() ==> (#[trigger] r@[i]) is Raw,
        !(os is Windows && shell == ExecShell::Default) ==> forall|i: int|
            0 <= i < r@.len() ==> (#[trigger] r@[i]) is Plain,
{
    let mut out: Vec<ShellArg> = Vec::new();
    if os.is_windows() {
        match shell {
            ExecShell::Default => {
                out.push(ShellArg::Raw(String::from_str("/D /S /C")));
                let mut quoted = String::from_str("\"");
                quoted.append(command);
                quoted.append("\"");
                out.push(ShellArg::Raw(quoted));
            },
            ExecShell::PowerShell => {
                out.push(ShellArg::Plain(String::from_str("-NoLogo")));
                out.push(ShellArg::Plain(String::from_str("-NoProfile")));
                out.push(ShellArg::Plain(String::from_str("-NonInteractive")));
                out.push(ShellArg::Plain(String::from_str("-EncodedCommand")));
                out.push(ShellArg::Plain(powershell_encoded_command(command)));
            },
        }
    } else {
        out.push(ShellArg::Plain(String::from_str("-c")));
        out.push(ShellArg::Plain(command.to_owned()));
    }
    out
}

/// The directories put before the inherited PATH on Unix.
pub const UNIX_EXEC_PATH_PREFIX: &'static str = "/usr/local/bin:/usr/bin:/bin:/usr/sbin:/sbin:";

/// The environment facts a launch depends on, read by the caller.
#[derive(Clone, Debug)]
pub struct LaunchEnv {
    /// `HOME` is set.
    pub home_set: bool,
    /// The home directory to use when `HOME` is not set (the account's
    /// directory, or on Windows `USERPROFILE`), if known.
    pub home_fallback: Option<String>,
    /// `USER` is set.
    pub user_set: bool,
    /// The inherited `PATH` (empty when unset).
    pub path: String,
    /// The inherited `TZ`, if set.
    pub tz: Option<String>,
}

/// The environment changes of a shell launch, in order.
#[derive(Clone, Debug)]
pub struct EnvPlan {
    /// Variables removed: they describe the supervised Portal.
    pub remove: Vec<String>,
    /// Variables set.
    pub set: Vec<(String, String)>,
}

/// The PATH a Unix command gets: the standard directories, then the inherited PATH.
pub open spec fn unix_path(inherited: Seq<char>) -> Seq<char> {
    UNIX_EXEC_PATH_PREFIX@ + inherited
}

/// The variables a launch sets, in order: HOME when unset (the fallback, else
/// the workspace root), USER when unset (the Portal's name, else `being`),
/// PATH (on Unix the standard directories before the inherited PATH; on
/// Windows the PATH the caller assembled), TZ when set, and on Windows the
/// UTF-8 settings of Python and .NET.
pub open spec fn env_sets(env: LaunchEnv, portal_name: Seq<char>, workspace_root: Seq<char>, windows_path: Seq<char>, os: TargetOs) -> Seq<(Seq<char>, Seq<char>)> {
    let home = if env.home_set {
        Seq::empty()
    } else {
        seq![(
            "HOME"@,
            match env.home_fallback {
                Some(h) => h@,
                None => workspace_root,
            },
        )]
    };
    let user = if env.user_set {
        Seq::empty()
    } else {
        seq![("USER"@, if portal_name.len() == 0 { "being"@ } else { portal_name })]
    };
    let path = seq![("PATH"@, if os is Windows { windows_path } else { unix_path(env.path@) })];
    let tz = match env.tz {
        Some(t) => seq![("TZ"@, t@)],
        None => Seq::empty(),
    };
    let win = if os is Windows {
        seq![("PYTHONIOENCODING"@, "utf-8"@), ("PYTHONUTF8"@, "1"@), ("DOTNET_CLI_UI_LANGUAGE"@, "en"@)]
    } else {
        Seq::empty()
    };
    home + user + path + tz + win
}

/// The environment changes of a shell launch (see [`env_sets`]).
pub fn env_plan(env: &LaunchEnv, portal_name: &str, workspace_root: &str, windows_path: &str, os: &TargetOs) -> (r: EnvPlan)
    ensures
        r.remove@.len() == 2,
        r.remove@[0]@ == "HEART_PORTAL_SUPERVISED"@,
        r.remove@[1]@ == "PORTAL_CONNECT_LINK"@,
        pair_views(r.set@) == env_sets(*env, portal_name@, workspace_root@, windows_path@, *os),
{
    let mut remove: Vec<String> = Vec::new();
    remove.push(String::from_str("HEART_PORTAL_SUPERVISED"));
    remove.push(String::from_str("PORTAL_CONNECT_LINK"));
    let mut set: Vec<(String, String)> = Vec::new();
    let ghost s0 = pair_views(set@);
    if !env.home_set {
        let home = match &env.home_fallback {
            Some(h) => h.clone(),
            None => workspace_root.to_owned(),
        };
        push_pair(&mut set, "HOME", home);
    }
    let ghost s1 = pair_views(set@);
    if !env.user_set {
        let user = if portal_name.is_empty() {
            String::from_str("being")
        } else {
            portal_name.to_owned()
        };
        push_pair(&mut set, "USER", user);
    }
    let ghost s2 = pair_views(set@);
    if os.is_windows() {
        push_pair(&mut set, "PATH", windows_path.to_owned());
    } else {
        let mut p = String::from_str(UNIX_EXEC_PATH_PREFIX);
        p.append(env.path.as_str());
        push_pair(&mut set, "PATH", p);
    }
    let ghost s3 = pair_views(set@);
    if let Some(tz) = &env.tz {
        push_pair(&mut set, "TZ", tz.clone());
    }
    let ghost s4 = pair_views(set@);
    if os.is_windows() {
        push_pair(&mut set, "PYTHONIOENCODING", String::from_str("utf-8"));
        push_pair(&mut set, "PYTHONUTF8", String::from_str("1"));
        push_pair(&mut set, "DOTNET_CLI_UI_LANGUAGE", String::from_str("en"));
    }
    proof {
        let spec = env_sets(*env, portal_name@, workspace_root@, windows_path@, *os);
        assert(pair_views(set@) =~= spec);
    }
    EnvPlan { remove, set }
}

/// `a` equals `b` ignoring ASCII case.
pub open spec fn eq_ascii_nocase(a: Seq<char>, b: Seq<char>) -> bool {
    a.len() == b.len() && forall|i: int|
        0 <= i < a.len() ==> crate::file_tools::ascii_lower(#[trigger] a[i])
            == crate::file_tools::ascii_lower(b[i])
}

/// Whether `a` equals `b` ignoring ASCII case.
pub fn same_ignoring_ascii_case(a: &str, b: &str) -> (r: bool)
    ensures
        r == eq_ascii_nocase(a@, b@),
{
    let ac = chars_of(a);
    let bc = chars_of(b);
    if ac.len() != bc.len() {
        return false;
    }
    let mut i: usize = 0;
    while i < ac.len()
        invariant
            i <= ac.len() == bc.len(),
            ac@ == a@,
            bc@ == b@,
            forall|k: int|
                0 <= k < i ==> crate::file_tools::ascii_lower(#[trigger] ac@[k])
                    == crate::file_tools::ascii_lower(bc@[k]),
        decreases ac.len() - i,
    {
        let x = ac[i];
        let y = bc[i];
        let lx: u32 = if 'A' <= x && x <= 'Z' {
            x as u32 + 32
        } else {
            x as u32
        };
        let ly: u32 = if 'A' <= y && y <= 'Z' {
            y as u32 + 32
        } else {
            y as u32
        };
        proof {
            vstd::utf8::char_u32_cast(x, x as u32);
            vstd::utf8::char_u32_cast(y, y as u32);
            assert(lx == crate::file_tools::ascii_lower(x) as u32);
            assert(ly == crate::file_tools::ascii_lower(y) as u32);
        }
        if lx != ly {
            return false;
        }
        i += 1;
    }
    true
}

/// The Windows PATH with Git's Unix tools: `tools` is appended as a
/// fallback unless some entry already names it (ignoring ASCII case).
pub fn with_git_tools(paths: Vec<String>, tools: Option<String>) -> (r: Vec<String>)
    ensures
        match tools {
            None => r@ == paths@,
            Some(t) => if exists|i: int| 0 <= i < paths@.len() && eq_ascii_nocase(paths@[i]@, t@) {
                r@ == paths@
            } else {
                r@ == paths@.push(t)
            },
        },
{
    let t = match tools {
        None => return paths,
        Some(t) => t,
    };
    let mut i: usize = 0;
    while i < paths.len()
        invariant
            i <= paths@.len(),
            tools == Some(t),
            forall|k: int| 0 <= k < i ==> !eq_ascii_nocase(paths@[k]@, t@),
        decreases paths.len() - i,
    {
        if same_ignoring_ascii_case(paths[i].as_str(), t.as_str()) {
            assert(eq_ascii_nocase(paths@[i as int]@, t@));
            return paths;
        }
        i += 1;
    }
    let mut out = paths;
    out.push(t);
    out
}

} // verus!
