//! Shell exec policy: allowlist validation and the shell a command runs under.
use vstd::prelude::*;
use crate::args::ArgValue;
use crate::platform::TargetOs;
use crate::text::{
    chars_of, concat, contains_seq, first_word, first_word_of, has_char, has_char_vec, has_pair,
    in_list, is_ws, lemma_first_word_blank_suffix, lemma_first_word_then_ws, lemma_first_word_ws_prefix,
    lemma_split_at_sep, lemma_split_concat, lemma_split_nonempty, lemma_split_plain,
    lemma_split_prefix, list_contains, occurs_at, one_of, split_any, split_any_vec, split_from,
    split_on, string_of, views,
};

verus! {

/// The shell a command runs under.
#[derive(Clone, Copy, Debug, PartialEq, Eq, Structural)]
pub enum ExecShell {
    /// `cmd` on Windows, `sh` elsewhere.
    Default,
    /// Windows PowerShell.
    PowerShell,
}

/// Why a `shell` argument was refused.
#[derive(Clone, Copy, Debug, PartialEq, Eq, Structural)]
pub enum ShellChoiceError {
    /// The value names no shell this host offers.
    Unsupported,
}

impl ShellChoiceError {
    /// The message shown to the caller.
    pub fn message(&self) -> (r: String)
        ensures
            r@ == "shell must be 'default' or 'powershell' (PowerShell requires Windows)"@,
    {
        String::from_str("shell must be 'default' or 'powershell' (PowerShell requires Windows)")
    }
}

/// What `ExecShell::parse` gives for a `shell` argument on `os`.
pub open spec fn spec_parse_shell(value: Option<ArgValue>, os: TargetOs) -> Result<
    ExecShell,
    ShellChoiceError,
> {
    match value {
        None => Ok(ExecShell::Default),
        Some(ArgValue::Str(s)) => if s@ == "default"@ {
            Ok(ExecShell::Default)
        } else if s@ == "powershell"@ && os is Windows {
            Ok(ExecShell::PowerShell)
        } else {
            Err(ShellChoiceError::Unsupported)
        },
        _ => Err(ShellChoiceError::Unsupported),
    }
}

impl ExecShell {
    /// Reads the `shell` argument: absent or `"default"` is the default shell,
    /// `"powershell"` is PowerShell on Windows; anything else is refused and
    /// never replaced by another interpreter.
    pub fn parse(value: Option<&ArgValue>, os: &TargetOs) -> (r: Result<ExecShell, ShellChoiceError>)
        ensures
            r == spec_parse_shell(
                match value {
                    Some(v) => Some(*v),
                    None => None,
                },
                *os,
            ),
    {
        match value {
            None => Ok(ExecShell::Default),
            Some(ArgValue::Str(s)) => {
                let d = String::from_str("default");
                let p = String::from_str("powershell");
                proof {
                    reveal_strlit("default");
                    reveal_strlit("powershell");
                }
                if *s == d {
                    Ok(ExecShell::Default)
                } else if *s == p && os.is_windows() {
                    Ok(ExecShell::PowerShell)
                } else {
                    Err(ShellChoiceError::Unsupported)
                }
            },
            _ => Err(ShellChoiceError::Unsupported),
        }
    }

    /// The program that runs a command under this shell.
    pub fn program(self, os: &TargetOs) -> (r: &'static str)
        ensures
            self == ExecShell::Default ==> r@ == shell_program_spec(*os),
            self == ExecShell::PowerShell ==> r@ == "powershell.exe"@,
    {
        match self {
            ExecShell::Default => shell_program(os),
            ExecShell::PowerShell => "powershell.exe",
        }
    }
}

/// `cmd` on Windows, `sh` everywhere else.
pub open spec fn shell_program_spec(os: TargetOs) -> Seq<char> {
    if os is Windows {
        "cmd"@
    } else {
        "sh"@
    }
}

/// The default shell program of `os`.
pub fn shell_program(os: &TargetOs) -> (r: &'static str)
    ensures
        r@ == shell_program_spec(*os),
{
    if os.is_windows() {
        "cmd"
    } else {
        "sh"
    }
}

/// The flag that hands a command line to `sh`.
pub fn shell_arg_flag() -> (r: &'static str)
    ensures
        r@ == "-c"@,
{
    "-c"
}

/// True for the characters that chain commands: `;`, `|`, `&`.
pub open spec fn is_chain_char(c: char) -> bool {
    c == ';' || c == '|' || c == '&'
}

/// The chain separators, as a set of characters.
pub open spec fn chain_chars() -> Seq<char> {
    seq![';', '|', '&']
}

/// True when `s` runs a subshell: a backtick or `$(`.
pub open spec fn spec_has_subshell(s: Seq<char>) -> bool {
    has_char(s, '`') || contains_seq(s, seq!['$', '('])
}

/// True when `s` chains commands.
pub open spec fn spec_has_chain(s: Seq<char>) -> bool {
    has_char(s, ';') || has_char(s, '|') || has_char(s, '&')
}

/// The commands of a chain: the pieces between `;`, `|` and `&`.
pub open spec fn chain_segments(s: Seq<char>) -> Seq<Seq<char>> {
    split_any(s, chain_chars())
}

/// Shell metacharacters that open a subshell (a backtick or `$(`).
pub fn has_subshell_or_backtick(command: &str) -> (b: bool)
    ensures
        b == spec_has_subshell(command@),
{
    let cs = chars_of(command);
    has_char_vec(&cs, '`') || has_pair(&cs, '$', '(')
}

/// `;` `|` `&` split shell pipelines / command lists.
pub fn has_chain_metachars(command: &str) -> (b: bool)
    ensures
        b == spec_has_chain(command@),
{
    let cs = chars_of(command);
    has_char_vec(&cs, ';') || has_char_vec(&cs, '|') || has_char_vec(&cs, '&')
}

/// The commands of a chain, split at every `;`, `|` and `&`.
pub fn split_chain_segments(command: &str) -> (r: Vec<String>)
    ensures
        views(r@) == chain_segments(command@),
{
    let cs = chars_of(command);
    let mut seps: Vec<char> = Vec::new();
    seps.push(';');
    seps.push('|');
    seps.push('&');
    assert(seps@ =~= chain_chars());
    split_any_vec(&cs, &seps)
}

/// Why a command was refused by the allowlist.
#[derive(Clone, Debug)]
pub enum ExecPolicyError {
    /// The command's program is not allowlisted.
    NotInAllowlist { program: String },
    /// The command opens a subshell, or chains a program that is not allowlisted.
    ShellMetacharacters,
}

impl ExecPolicyError {
    /// The message shown to the caller.
    pub fn message(&self) -> (r: String)
        ensures
            match self {
                ExecPolicyError::NotInAllowlist { program } => r@ == "Command '"@ + program@
                    + "' not in exec allowlist"@,
                ExecPolicyError::ShellMetacharacters => r@
                    == "Command contains shell metacharacters with non-allowlisted commands"@,
            },
    {
        match self {
            ExecPolicyError::NotInAllowlist { program } => {
                let a = concat("Command '", program.as_str());
                concat(a.as_str(), "' not in exec allowlist")
            },
            ExecPolicyError::ShellMetacharacters => String::from_str(
                "Command contains shell metacharacters with non-allowlisted commands",
            ),
        }
    }
}

/// Every command of the chain `s` that has a program has an allowlisted one.
pub open spec fn chain_allowed(s: Seq<char>, allow: Seq<String>) -> bool {
    forall|i: int|
        0 <= i < chain_segments(s).len() ==> (#[trigger] first_word(chain_segments(s)[i])).len()
            > 0 ==> in_list(allow, first_word(chain_segments(s)[i]))
}

/// What `validate_exec_allowlist` decides for `command` under `allow`.
pub open spec fn exec_decision(command: Seq<char>, allow: Seq<String>) -> Option<
    ExecPolicyErrorKind,
> {
    if allow.len() == 0 {
        None
    } else if !in_list(allow, first_word(command)) {
        Some(ExecPolicyErrorKind::NotInAllowlist)
    } else if spec_has_subshell(command) || !chain_allowed(command, allow) {
        Some(ExecPolicyErrorKind::ShellMetacharacters)
    } else {
        None
    }
}

/// The variant of an [`ExecPolicyError`], without its data.
pub enum ExecPolicyErrorKind {
    NotInAllowlist,
    ShellMetacharacters,
}

/// When an exec allowlist is configured, accept `command` only when its program
/// is allowlisted, it opens no subshell, and every command it chains with
/// `;`, `|` or `&` is allowlisted too. An empty allowlist accepts everything.
pub fn validate_exec_allowlist(command: &str, allowlist: &Vec<String>) -> (r: Result<
    (),
    ExecPolicyError,
>)
    ensures
        match exec_decision(command@, allowlist@) {
            None => r is Ok,
            Some(ExecPolicyErrorKind::NotInAllowlist) => r matches Err(
                ExecPolicyError::NotInAllowlist { program },
            ) && program@ == first_word(command@),
            Some(ExecPolicyErrorKind::ShellMetacharacters) => r matches Err(
                ExecPolicyError::ShellMetacharacters,
            ),
        },
{
    if allowlist.len() == 0 {
        return Ok(());
    }
    let cs = chars_of(command);
    let first = string_of(&first_word_of(&cs));
    if !list_contains(allowlist, &first) {
        return Err(ExecPolicyError::NotInAllowlist { program: first });
    }
    if has_subshell_or_backtick(command) {
        return Err(ExecPolicyError::ShellMetacharacters);
    }
    let segments = split_chain_segments(command);
    let mut i: usize = 0;
    while i < segments.len()
        invariant
            i <= segments.len(),
            views(segments@) == chain_segments(command@),
            allowlist@.len() > 0,
            in_list(allowlist@, first_word(command@)),
            !spec_has_subshell(command@),
            forall|k: int|
                0 <= k < i ==> (#[trigger] first_word(chain_segments(command@)[k])).len() > 0
                    ==> in_list(allowlist@, first_word(chain_segments(command@)[k])),
        decreases segments.len() - i,
    {
        let seg = chars_of(segments[i].as_str());
        let w = first_word_of(&seg);
        let word = string_of(&w);
        proof {
            assert(views(segments@)[i as int] == segments@[i as int]@);
        }
        if w.len() > 0 && !list_contains(allowlist, &word) {
            proof {
                let seg_i = chain_segments(command@)[i as int];
                assert(seg@ == seg_i);
                assert(first_word(seg_i).len() > 0);
                assert(!in_list(allowlist@, first_word(seg_i)));
                assert(!chain_allowed(command@, allowlist@));
            }
            return Err(ExecPolicyError::ShellMetacharacters);
        }
        i += 1;
    }
    Ok(())
}


/// With no allowlist configured, every command is accepted.
pub proof fn lemma_empty_allowlist_accepts_all(command: Seq<char>)
    ensures
        exec_decision(command, Seq::<String>::empty()) is None,
{
}

/// With an allowlist, a command whose program is not listed is refused.
pub proof fn lemma_unlisted_program_refused(command: Seq<char>, allow: Seq<String>)
    requires
        allow.len() > 0,
        !in_list(allow, first_word(command)),
    ensures
        exec_decision(command, allow) == Some(ExecPolicyErrorKind::NotInAllowlist),
{
}

/// With an allowlist, a command is accepted when its program is listed, it
/// has no backtick and no `$(`, and every command it chains (the pieces
/// between `;`, `|` and `&`) is blank or starts with a listed program.
pub proof fn lemma_allowlisted_chain_accepted(
    command: Seq<char>,
    allow: Seq<String>,
    pieces: Seq<Seq<char>>,
)
    requires
        allow.len() > 0,
        in_list(allow, first_word(command)),
        !has_char(command, '`'),
        !contains_seq(command, seq!['$', '(']),
        pieces == split_any(command, seq![';', '|', '&']),
        forall|i: int|
            0 <= i < pieces.len() ==> first_word(#[trigger] pieces[i]).len() == 0 || in_list(
                allow,
                first_word(pieces[i]),
            ),
    ensures
        exec_decision(command, allow) is None,
{
    assert(chain_segments(command) == pieces);
}

/// `a`, the chain character `c` between spaces, then `b`: `a ; b`,
/// `a | b` or `a & b`.
pub open spec fn chained(a: Seq<char>, c: char, b: Seq<char>) -> Seq<char> {
    a + seq![' ', c, ' '] + b
}

/// No subshell opens across the ` c ` between two commands.
proof fn lemma_chained_no_subshell(a: Seq<char>, c: char, b: Seq<char>)
    requires
        is_chain_char(c),
        !spec_has_subshell(a),
        !spec_has_subshell(b),
    ensures
        !spec_has_subshell(chained(a, c, b)),
{
    let m = chained(a, c, b);
    let n = a.len() as int;
    if has_char(m, '`') {
        let k = choose|k: int| 0 <= k < m.len() && m[k] == '`';
        if k < n {
            assert(a[k] == m[k]);
        } else if k >= n + 3 {
            assert(b[k - n - 3] == m[k]);
        }
    }
    if contains_seq(m, seq!['$', '(']) {
        let k = choose|k: int| occurs_at(m, seq!['$', '('], k);
        assert(m.subrange(k, k + 2)[0] == m[k]);
        assert(m.subrange(k, k + 2)[1] == m[k + 1]);
        assert(m[k] == '$' && m[k + 1] == '(');
        if k + 1 < n {
            assert(a.subrange(k, k + 2) =~= m.subrange(k, k + 2));
            assert(occurs_at(a, seq!['$', '('], k));
        } else if k >= n + 3 {
            assert(b.subrange(k - n - 3, k - n - 1) =~= m.subrange(k, k + 2));
            assert(occurs_at(b, seq!['$', '('], k - n - 3));
        }
    }
}

/// Two commands that the allowlist accepts stay accepted when chained with
/// `;`, `|` or `&` (between spaces), as long as the first names a program:
/// `ls -la | grep txt` is accepted when `ls -la` and `grep txt` are.
pub proof fn lemma_chaining_accepted_commands(a: Seq<char>, c: char, b: Seq<char>, allow: Seq<String>)
    requires
        allow.len() > 0,
        is_chain_char(c),
        exec_decision(a, allow) is None,
        exec_decision(b, allow) is None,
        first_word(a).len() > 0,
    ensures
        exec_decision(chained(a, c, b), allow) is None,
{
    let m = chained(a, c, b);
    let sep = one_of(chain_chars());
    assert(sep(c)) by {
        if c == ';' {
            assert(chain_chars()[0] == c);
        } else if c == '|' {
            assert(chain_chars()[1] == c);
        } else {
            assert(chain_chars()[2] == c);
        }
    }
    assert(!sep(' ')) by {
        if sep(' ') {
            let i = choose|i: int| 0 <= i < 3 && chain_chars()[i] == ' ';
        }
    }
    // The program is that of `a`.
    let rest = seq![' ', c, ' '] + b;
    assert(m =~= a + rest);
    lemma_first_word_then_ws(a, rest);
    // No subshell.
    lemma_chained_no_subshell(a, c, b);
    // The chained commands are those of `a`, then those of `b`.
    let a1 = a + seq![' '];
    let b1 = seq![' '] + b;
    assert(m =~= a1 + seq![c] + b1);
    lemma_split_at_sep(a1, c, b1, sep);
    let sa = split_on(a, sep);
    let sb = split_on(b, sep);
    lemma_split_nonempty(Seq::empty(), a, sep);
    lemma_split_nonempty(Seq::empty(), b, sep);
    lemma_split_concat(Seq::empty(), a, seq![' '], sep);
    let sp = seq![' '];
    assert forall|k: int| 0 <= k < sp.len() implies !sep(#[trigger] sp[k]) by {}
    lemma_split_plain(sa.last(), sp, sep);
    let pa = sa.drop_last().push(sa.last() + seq![' ']);
    assert(split_on(a1, sep) =~= pa);
    assert(b1[0] == ' ');
    assert(b1.drop_first() =~= b);
    assert(split_on(b1, sep) == split_from(seq![' '], b, sep));
    lemma_split_prefix(seq![' '], b, sep);
    let pb = sb.update(0, seq![' '] + sb[0]);
    assert(split_on(b1, sep) == pb);
    let segs = split_on(m, sep);
    assert(segs == pa + pb);
    assert(chain_segments(m) == segs);
    assert(chain_segments(a) == sa);
    assert(chain_segments(b) == sb);
    let na = sa.len() as int;
    assert forall|i: int|
        0 <= i < segs.len() && (#[trigger] first_word(segs[i])).len() > 0 implies in_list(
        allow,
        first_word(segs[i]),
    ) by {
        if i < na - 1 {
            assert(segs[i] == sa[i]);
            assert(first_word(chain_segments(a)[i]).len() > 0);
        } else if i == na - 1 {
            assert(segs[i] == sa.last() + seq![' ']);
            let sp = seq![' '];
            assert forall|k: int| 0 <= k < sp.len() implies is_ws(#[trigger] sp[k]) by {}
            lemma_first_word_blank_suffix(sa.last(), sp);
            assert(first_word(chain_segments(a)[na - 1]).len() > 0);
        } else {
            let j = i - na;
            if j == 0 {
                assert(segs[i] == seq![' '] + sb[0]);
                lemma_first_word_ws_prefix(' ', sb[0]);
                assert(first_word(chain_segments(b)[0]).len() > 0);
            } else {
                assert(segs[i] == sb[j]);
                assert(first_word(chain_segments(b)[j]).len() > 0);
            }
        }
    }
    assert(chain_allowed(m, allow));
}

} // verus!
