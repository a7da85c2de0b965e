//! Extensions: MCP servers listed in `extensions.toml` that can be started,
//! stopped and reloaded while the portal runs. This module keeps the
//! registry of extensions and decides every state change; starting and
//! stopping processes is the caller's.
use vstd::prelude::*;
use crate::custom::path_join;
use crate::platform::TargetOs;
use crate::text::{pair_views, same_text, views};
use crate::tool_catalog::ToolInfo;

verus! {

/// The lifecycle state of an extension.
#[derive(Clone, Copy, Debug, PartialEq, Eq, Structural)]
pub enum ExtensionStatus {
    Stopped,
    Starting,
    Running,
    Failed,
    Restarting,
}

/// The configuration of one extension.
#[derive(Debug)]
pub struct ExtensionConfig {
    /// What the extension is for.
    pub description: String,
    /// The program and its arguments.
    pub command: Vec<String>,
    /// The working directory, relative to the workspace.
    pub working_dir: Option<String>,
    /// Environment variables (each name once).
    pub env: Vec<(String, String)>,
    /// Start with the portal.
    pub auto_start: bool,
    /// Seconds allowed for startup.
    pub startup_timeout: u64,
    /// Restart after a crash.
    pub restart_on_crash: bool,
}

/// The configuration file: extensions by name (each name once).
#[derive(Debug)]
pub struct ExtensionsConfig {
    pub extensions: Vec<(String, ExtensionConfig)>,
}

/// `auto_start` and `restart_on_crash` default to true.
pub fn default_true() -> (r: bool)
    ensures
        r,
{
    true
}

/// Startup is allowed 30 seconds unless the file says otherwise.
pub fn default_startup_timeout() -> (r: u64)
    ensures
        r == 30,
{
    30
}

impl Default for ExtensionsConfig {
    fn default() -> (r: Self)
        ensures
            r.extensions@.len() == 0,
    {
        ExtensionsConfig { extensions: Vec::new() }
    }
}

/// True when no name occurs twice among the extensions of a configuration.
pub open spec fn config_names_unique(c: Seq<(String, ExtensionConfig)>) -> bool {
    forall|i: int, j: int|
        0 <= i < j < c.len() ==> (#[trigger] c[i]).0@ != (#[trigger] c[j]).0@
}

/// The runtime state of one extension.
#[derive(Debug)]
pub struct ExtensionState {
    pub name: String,
    pub config: ExtensionConfig,
    pub status: ExtensionStatus,
    pub tools: Vec<ToolInfo>,
    pub last_error: Option<String>,
    pub restart_count: u32,
}

/// All extensions the portal knows.
#[derive(Debug)]
pub struct ExtensionRegistry {
    pub states: Vec<ExtensionState>,
}

/// True when no name occurs twice among the states.
pub open spec fn state_names_unique(s: Seq<ExtensionState>) -> bool {
    forall|i: int, j: int| 0 <= i < j < s.len() ==> (#[trigger] s[i]).name@ != (#[trigger] s[j]).name@
}

/// Index of the state named `name`, or -1.
pub open spec fn find_state(s: Seq<ExtensionState>, name: Seq<char>) -> int
    decreases s.len(),
{
    if s.len() == 0 {
        -1
    } else if s.last().name@ == name {
        s.len() - 1
    } else {
        find_state(s.drop_last(), name)
    }
}

/// Index of the configuration named `name`, or -1.
pub open spec fn find_config(c: Seq<(String, ExtensionConfig)>, name: Seq<char>) -> int
    decreases c.len(),
{
    if c.len() == 0 {
        -1
    } else if c.last().0@ == name {
        c.len() - 1
    } else {
        find_config(c.drop_last(), name)
    }
}

proof fn lemma_find_state(s: Seq<ExtensionState>, name: Seq<char>)
    ensures
        -1 <= find_state(s, name) < s.len(),
        find_state(s, name) >= 0 ==> s[find_state(s, name)].name@ == name,
        find_state(s, name) < 0 ==> forall|i: int| 0 <= i < s.len() ==> (#[trigger] s[i]).name@ != name,
        state_names_unique(s) ==> forall|i: int|
            0 <= i < s.len() && (#[trigger] s[i]).name@ == name ==> find_state(s, name) == i,
    decreases s.len(),
{
    if s.len() > 0 {
        let t = s.drop_last();
        lemma_find_state(t, name);
        assert forall|i: int| 0 <= i < s.len() - 1 implies #[trigger] t[i] == s[i] by {}
        if find_state(s, name) < 0 {
            assert forall|i: int| 0 <= i < s.len() implies (#[trigger] s[i]).name@ != name by {
                if i < s.len() - 1 {
                    assert(t[i] == s[i]);
                }
            }
        }
        if state_names_unique(s) {
            assert(state_names_unique(t)) by {
                assert forall|a: int, b: int| 0 <= a < b < t.len() implies (#[trigger] t[a]).name@
                    != (#[trigger] t[b]).name@ by {
                    assert(t[a] == s[a] && t[b] == s[b]);
                }
            }
            assert forall|i: int| 0 <= i < s.len() && (#[trigger] s[i]).name@ == name implies find_state(
                s,
                name,
            ) == i by {
                if i < s.len() - 1 {
                    assert(s[i].name@ != s[s.len() - 1].name@);
                    assert(t[i] == s[i]);
                }
            }
        }
    }
}

proof fn lemma_find_config(c: Seq<(String, ExtensionConfig)>, name: Seq<char>)
    ensures
        -1 <= find_config(c, name) < c.len(),
        find_config(c, name) >= 0 ==> c[find_config(c, name)].0@ == name,
        find_config(c, name) < 0 ==> forall|i: int| 0 <= i < c.len() ==> (#[trigger] c[i]).0@ != name,
        config_names_unique(c) ==> forall|i: int|
            0 <= i < c.len() && (#[trigger] c[i]).0@ == name ==> find_config(c, name) == i,
    decreases c.len(),
{
    if c.len() > 0 {
        let t = c.drop_last();
        lemma_find_config(t, name);
        assert forall|i: int| 0 <= i < c.len() - 1 implies #[trigger] t[i] == c[i] by {}
        if find_config(c, name) < 0 {
            assert forall|i: int| 0 <= i < c.len() implies (#[trigger] c[i]).0@ != name by {
                if i < c.len() - 1 {
                    assert(t[i] == c[i]);
                }
            }
        }
        if config_names_unique(c) {
            assert(config_names_unique(t)) by {
                assert forall|a: int, b: int| 0 <= a < b < t.len() implies (#[trigger] t[a]).0@
                    != (#[trigger] t[b]).0@ by {
                    assert(t[a] == c[a] && t[b] == c[b]);
                }
            }
            assert forall|i: int| 0 <= i < c.len() && (#[trigger] c[i]).0@ == name implies find_config(
                c,
                name,
            ) == i by {
                if i < c.len() - 1 {
                    assert(c[i].0@ != c[c.len() - 1].0@);
                    assert(t[i] == c[i]);
                }
            }
        }
    }
}

/// Why an extension operation is refused.
#[derive(Debug)]
pub enum ExtensionError {
    NotFound(String),
    EmptyCommand(String),
    ToolNotFound(String),
}

impl ExtensionError {
    /// The error's message.
    pub fn message(&self) -> (r: String)
        ensures
            match self {
                ExtensionError::NotFound(n) => r@ == "Extension '"@ + n@ + "' not found"@,
                ExtensionError::EmptyCommand(n) => r@ == "Extension '"@ + n@ + "' has empty command"@,
                ExtensionError::ToolNotFound(t) => r@ == "Tool '"@ + t@
                    + "' not found in any running extension"@,
            },
    {
        match self {
            ExtensionError::NotFound(n) => {
                let mut m = String::from_str("Extension '");
                m.append(n.as_str());
                m.append("' not found");
                m
            },
            ExtensionError::EmptyCommand(n) => {
                let mut m = String::from_str("Extension '");
                m.append(n.as_str());
                m.append("' has empty command");
                m
            },
            ExtensionError::ToolNotFound(t) => {
                let mut m = String::from_str("Tool '");
                m.append(t.as_str());
                m.append("' not found in any running extension");
                m
            },
        }
    }
}

/// How to start an extension's process.
#[derive(Debug)]
pub struct SpawnPlan {
    pub program: String,
    pub args: Vec<String>,
    pub working_dir: String,
    pub env: Vec<(String, String)>,
}

/// What starting an extension asks of the caller.
#[derive(Debug)]
pub enum StartAction {
    /// It is running already: nothing to do.
    AlreadyRunning,
    /// Spawn this process, then report with `finish_start`.
    Spawn(SpawnPlan),
}

/// The working directory of an extension: its own under the workspace, or
/// the workspace itself.
pub open spec fn working_dir_of(c: ExtensionConfig, workspace_root: Seq<char>, os: TargetOs) -> Seq<
    char,
> {
    match c.working_dir {
        Some(wd) => path_join(workspace_root, wd@, os),
        None => workspace_root,
    }
}

fn copy_strings(v: &Vec<String>, from: usize) -> (r: Vec<String>)
    requires
        from <= v@.len(),
    ensures
        views(r@) == views(v@).skip(from as int),
{
    let mut out: Vec<String> = Vec::new();
    let mut i = from;
    while i < v.len()
        invariant
            from <= i <= v@.len(),
            views(out@) == views(v@).subrange(from as int, i as int),
        decreases v.len() - i,
    {
        let s = v[i].as_str().to_owned();
        let ghost before = out@;
        out.push(s);
        proof {
            assert(views(out@) =~= views(before).push(s@));
            assert(views(out@) =~= views(v@).subrange(from as int, i + 1));
        }
        i = i + 1;
    }
    proof {
        assert(views(v@).subrange(from as int, v@.len() as int) =~= views(v@).skip(from as int));
    }
    out
}

fn copy_pairs(v: &Vec<(String, String)>) -> (r: Vec<(String, String)>)
    ensures
        pair_views(r@) == pair_views(v@),
{
    let mut out: Vec<(String, String)> = Vec::new();
    let mut i: usize = 0;
    while i < v.len()
        invariant
            i <= v@.len(),
            pair_views(out@) == pair_views(v@).take(i as int),
        decreases v.len() - i,
    {
        let k = v[i].0.as_str().to_owned();
        let x = v[i].1.as_str().to_owned();
        let ghost before = out@;
        out.push((k, x));
        proof {
            assert(pair_views(out@) =~= pair_views(before).push((k@, x@)));
            assert(pair_views(out@) =~= pair_views(v@).take(i + 1));
        }
        i = i + 1;
    }
    proof {
        assert(pair_views(v@).take(v@.len() as int) =~= pair_views(v@));
    }
    out
}

fn copy_opt(o: &Option<String>) -> (r: Option<String>)
    ensures
        match o {
            Some(s) => r matches Some(t) && t@ == s@,
            None => r is None,
        },
{
    match o {
        Some(s) => Some(s.as_str().to_owned()),
        None => None,
    }
}

/// The environment of two configurations is the same map (each name once
/// in both): the same pairs, in any order.
pub open spec fn same_env(a: Seq<(Seq<char>, Seq<char>)>, b: Seq<(Seq<char>, Seq<char>)>) -> bool {
    a.len() == b.len() && (forall|i: int| 0 <= i < a.len() ==> b.contains(#[trigger] a[i]))
}

/// The options' texts.
pub open spec fn opt_view(o: Option<String>) -> Option<Seq<char>> {
    match o {
        Some(s) => Some(s@),
        None => None,
    }
}

/// A change that needs a restart: the command, working directory or
/// environment differs.
pub open spec fn critical_change(a: ExtensionConfig, b: ExtensionConfig) -> bool {
    views(a.command@) != views(b.command@) || opt_view(a.working_dir) != opt_view(b.working_dir)
        || !same_env(pair_views(a.env@), pair_views(b.env@))
}

fn strings_equal(a: &Vec<String>, b: &Vec<String>) -> (r: bool)
    ensures
        r == (views(a@) == views(b@)),
{
    if a.len() != b.len() {
        assert(views(a@).len() != views(b@).len());
        return false;
    }
    let mut i: usize = 0;
    while i < a.len()
        invariant
            a@.len() == b@.len(),
            i <= a@.len(),
            forall|k: int| 0 <= k < i ==> #[trigger] views(a@)[k] == views(b@)[k],
        decreases a.len() - i,
    {
        if !same_text(a[i].as_str(), b[i].as_str()) {
            assert(views(a@)[i as int] != views(b@)[i as int]);
            return false;
        }
        i = i + 1;
    }
    assert(views(a@) =~= views(b@));
    true
}

fn env_equal(a: &Vec<(String, String)>, b: &Vec<(String, String)>) -> (r: bool)
    ensures
        r == same_env(pair_views(a@), pair_views(b@)),
{
    if a.len() != b.len() {
        return false;
    }
    let mut i: usize = 0;
    while i < a.len()
        invariant
            a@.len() == b@.len(),
            i <= a@.len(),
            forall|k: int| 0 <= k < i ==> pair_views(b@).contains(#[trigger] pair_views(a@)[k]),
        decreases a.len() - i,
    {
        let mut j: usize = 0;
        let mut found = false;
        while j < b.len() && !found
            invariant
                a@.len() == b@.len(),
                i < a@.len(),
                j <= b@.len(),
                found ==> pair_views(b@).contains(pair_views(a@)[i as int]),
                !found ==> forall|k: int| 0 <= k < j ==> #[trigger] pair_views(b@)[k] != pair_views(
                    a@,
                )[i as int],
            decreases b.len() - j,
        {
            if same_text(a[i].0.as_str(), b[j].0.as_str()) && same_text(
                a[i].1.as_str(),
                b[j].1.as_str(),
            ) {
                assert(pair_views(b@)[j as int] == pair_views(a@)[i as int]);
                found = true;
            } else {
                assert(pair_views(b@)[j as int] != pair_views(a@)[i as int]);
            }
            j = j + 1;
        }
        if !found {
            assert(!pair_views(b@).contains(pair_views(a@)[i as int]));
            return false;
        }
        i = i + 1;
    }
    true
}

fn opt_equal(a: &Option<String>, b: &Option<String>) -> (r: bool)
    ensures
        r == (opt_view(*a) == opt_view(*b)),
{
    match (a, b) {
        (Some(x), Some(y)) => same_text(x.as_str(), y.as_str()),
        (None, None) => true,
        _ => false,
    }
}

fn config_changed(a: &ExtensionConfig, b: &ExtensionConfig) -> (r: bool)
    ensures
        r == critical_change(*a, *b),
{
    !strings_equal(&a.command, &b.command) || !opt_equal(&a.working_dir, &b.working_dir)
        || !env_equal(&a.env, &b.env)
}

fn copy_config(c: &ExtensionConfig) -> (r: ExtensionConfig)
    ensures
        r.description@ == c.description@,
        views(r.command@) == views(c.command@),
        opt_view(r.working_dir) == opt_view(c.working_dir),
        pair_views(r.env@) == pair_views(c.env@),
        r.auto_start == c.auto_start,
        r.startup_timeout == c.startup_timeout,
        r.restart_on_crash == c.restart_on_crash,
{
    let command = copy_strings(&c.command, 0);
    proof {
        assert(views(c.command@).skip(0) =~= views(c.command@));
    }
    ExtensionConfig {
        description: c.description.as_str().to_owned(),
        command,
        working_dir: copy_opt(&c.working_dir),
        env: copy_pairs(&c.env),
        auto_start: c.auto_start,
        startup_timeout: c.startup_timeout,
        restart_on_crash: c.restart_on_crash,
    }
}

/// Two configurations that say the same.
pub open spec fn same_config(a: ExtensionConfig, b: ExtensionConfig) -> bool {
    &&& a.description@ == b.description@
    &&& views(a.command@) == views(b.command@)
    &&& opt_view(a.working_dir) == opt_view(b.working_dir)
    &&& pair_views(a.env@) == pair_views(b.env@)
    &&& a.auto_start == b.auto_start
    &&& a.startup_timeout == b.startup_timeout
    &&& a.restart_on_crash == b.restart_on_crash
}

/// A state newly made from a configuration: stopped, no tools, no error,
/// never restarted.
pub open spec fn fresh_state(s: ExtensionState, name: Seq<char>, c: ExtensionConfig) -> bool {
    &&& s.name@ == name
    &&& same_config(s.config, c)
    &&& s.status == ExtensionStatus::Stopped
    &&& s.tools@.len() == 0
    &&& s.last_error is None
    &&& s.restart_count == 0
}

fn new_state(name: &String, c: &ExtensionConfig) -> (r: ExtensionState)
    ensures
        fresh_state(r, name@, *c),
{
    ExtensionState {
        name: name.as_str().to_owned(),
        config: copy_config(c),
        status: ExtensionStatus::Stopped,
        tools: Vec::new(),
        last_error: None,
        restart_count: 0,
    }
}

/// The message of one reload change.
pub open spec fn change_message(prefix: Seq<char>, name: Seq<char>) -> Seq<char> {
    prefix + name
}

/// The messages for extensions that leave the configuration while running.
pub open spec fn removed_messages(old: Seq<ExtensionState>, cfg: Seq<(String, ExtensionConfig)>) -> Seq<
    Seq<char>,
>
    decreases old.len(),
{
    if old.len() == 0 {
        Seq::empty()
    } else {
        let s = old.last();
        let rest = removed_messages(old.drop_last(), cfg);
        if find_config(cfg, s.name@) < 0 && s.status == ExtensionStatus::Running {
            rest.push(change_message("Stopped removed extension: "@, s.name@))
        } else {
            rest
        }
    }
}

/// The messages for extensions that the configuration adds or changes.
pub open spec fn added_messages(old: Seq<ExtensionState>, cfg: Seq<(String, ExtensionConfig)>) -> Seq<
    Seq<char>,
>
    decreases cfg.len(),
{
    if cfg.len() == 0 {
        Seq::empty()
    } else {
        let (name, c) = cfg.last();
        let rest = added_messages(old, cfg.drop_last());
        let k = find_state(old, name@);
        if k < 0 {
            rest.push(change_message("Added new extension: "@, name@))
        } else if critical_change(old[k].config, c) {
            rest.push(change_message("Updated extension: "@, name@))
        } else {
            rest
        }
    }
}

impl ExtensionRegistry {
    /// No name occurs twice.
    pub open spec fn wf(&self) -> bool {
        state_names_unique(self.states@)
    }

    /// An empty registry.
    pub fn new() -> (r: Self)
        ensures
            r.wf(),
            r.states@.len() == 0,
    {
        ExtensionRegistry { states: Vec::new() }
    }

    fn position(&self, name: &str) -> (r: Option<usize>)
        ensures
            match r {
                Some(i) => i == find_state(self.states@, name@),
                None => find_state(self.states@, name@) < 0,
            },
    {
        let mut i = self.states.len();
        assert(self.states@.take(i as int) =~= self.states@);
        while i > 0
            invariant
                i <= self.states@.len(),
                find_state(self.states@, name@) == find_state(self.states@.take(i as int), name@),
            decreases i,
        {
            proof {
                assert(self.states@.take(i as int).drop_last() =~= self.states@.take(i - 1));
            }
            if same_text(self.states[i - 1].name.as_str(), name) {
                return Some(i - 1);
            }
            i = i - 1;
        }
        None
    }

    /// The state of the extension `name`, if any.
    pub fn get(&self, name: &str) -> (r: Option<&ExtensionState>)
        ensures
            match r {
                Some(s) => find_state(self.states@, name@) >= 0 && *s == self.states@[find_state(
                    self.states@,
                    name@,
                )],
                None => find_state(self.states@, name@) < 0,
            },
    {
        proof {
            lemma_find_state(self.states@, name@);
        }
        match self.position(name) {
            Some(i) => Some(&self.states[i]),
            None => None,
        }
    }

    fn set_status(&mut self, i: usize, status: ExtensionStatus)
        requires
            i < old(self).states@.len(),
            old(self).wf(),
        ensures
            final(self).wf(),
            final(self).states@.len() == old(self).states@.len(),
            final(self).states@[i as int].status == status,
            final(self).states@[i as int].name == old(self).states@[i as int].name,
            final(self).states@[i as int].config == old(self).states@[i as int].config,
            final(self).states@[i as int].tools == old(self).states@[i as int].tools,
            final(self).states@[i as int].last_error == old(self).states@[i as int].last_error,
            final(self).states@[i as int].restart_count == old(self).states@[i as int].restart_count,
            forall|j: int| 0 <= j < old(self).states@.len() && j != i ==> final(self).states@[j] == old(self).states@[j],
    {
        let mut st = self.states.remove(i);
        st.status = status;
        self.states.insert(i, st);
        proof {
            assert forall|a: int, b: int| 0 <= a < b < self.states@.len() implies (#[trigger] self.states@[a]).name@
                != (#[trigger] self.states@[b]).name@ by {
                assert(old(self).states@[a].name == self.states@[a].name);
                assert(old(self).states@[b].name == self.states@[b].name);
            }
        }
    }

    /// Loads a configuration: each extension gets a fresh stopped state
    /// (replacing one of the same name). Returns the names, in the
    /// registry's order, of the extensions that start with the portal.
    pub fn initialize(&mut self, config: &ExtensionsConfig) -> (auto_start: Vec<String>)
        requires
            old(self).wf(),
            config_names_unique(config.extensions@),
        ensures
            final(self).wf(),
            forall|i: int|
                0 <= i < config.extensions@.len() ==> {
                    let k = find_state(final(self).states@, (#[trigger] config.extensions@[i]).0@);
                    k >= 0 && fresh_state(final(self).states@[k], config.extensions@[i].0@, config.extensions@[i].1)
                },
            forall|i: int|
                0 <= i < final(self).states@.len() ==> (find_config(config.extensions@, (#[trigger] final(self).states@[i]).name@) >= 0
                    || exists|j: int| 0 <= j < old(self).states@.len() && old(self).states@[j] == final(self).states@[i]),
            views(auto_start@) == final(self).states@.filter(|s: ExtensionState| s.config.auto_start).map_values(
                |s: ExtensionState| s.name@,
            ),
    {
        let mut i: usize = 0;
        while i < config.extensions.len()
            invariant
                self.wf(),
                i <= config.extensions@.len(),
                config_names_unique(config.extensions@),
                forall|k: int|
                    0 <= k < i ==> {
                        let p = find_state(self.states@, (#[trigger] config.extensions@[k]).0@);
                        p >= 0 && fresh_state(self.states@[p], config.extensions@[k].0@, config.extensions@[k].1)
                    },
                forall|k: int|
                    0 <= k < self.states@.len() ==> (find_config(config.extensions@.take(i as int), (#[trigger] self.states@[k]).name@) >= 0
                        || exists|j: int| 0 <= j < old(self).states@.len() && old(self).states@[j] == self.states@[k]),
            decreases config.extensions.len() - i,
        {
            let (name, c) = &config.extensions[i];
            let st = new_state(name, c);
            let ghost before = self.states@;
            proof {
                lemma_find_state(before, name@);
                assert(config.extensions@.take(i + 1).drop_last() =~= config.extensions@.take(i as int));
                lemma_find_config(config.extensions@.take(i as int), name@);
            }
            match self.position(name.as_str()) {
                Some(p) => {
                    self.states.set(p, st);
                    proof {
                        assert forall|a: int, b: int| 0 <= a < b < self.states@.len() implies (#[trigger] self.states@[a]).name@
                            != (#[trigger] self.states@[b]).name@ by {
                            assert(before[a].name@ != before[b].name@);
                        }
                        lemma_find_state(self.states@, name@);
                        assert forall|k: int| 0 <= k < i + 1 implies {
                            let q = find_state(self.states@, (#[trigger] config.extensions@[k]).0@);
                            q >= 0 && fresh_state(self.states@[q], config.extensions@[k].0@, config.extensions@[k].1)
                        } by {
                            if k < i {
                                let q0 = find_state(before, config.extensions@[k].0@);
                                assert(config.extensions@[k].0@ != name@);
                                lemma_find_state(before, config.extensions@[k].0@);
                                assert(q0 != p);
                                lemma_find_state(self.states@, config.extensions@[k].0@);
                                assert(self.states@[q0] == before[q0]);
                                assert(self.states@[q0].name@ == config.extensions@[k].0@);
                            } else {
                                assert(self.states@[p as int] == st);
                                assert(self.states@[p as int].name@ == name@);
                                assert(config.extensions@[k].0@ == name@);
                            }
                        }
                        assert forall|k: int| 0 <= k < self.states@.len() implies (find_config(config.extensions@.take(i + 1), (#[trigger] self.states@[k]).name@) >= 0
                            || exists|j: int| 0 <= j < old(self).states@.len() && old(self).states@[j] == self.states@[k]) by {
                            lemma_find_config(config.extensions@.take(i + 1), self.states@[k].name@);
                            lemma_find_config(config.extensions@.take(i as int), self.states@[k].name@);
                            if k == p {
                                assert(config.extensions@.take(i + 1)[i as int].0@ == self.states@[k].name@);
                            } else {
                                assert(self.states@[k] == before[k]);
                                if find_config(config.extensions@.take(i as int), before[k].name@) >= 0 {
                                    let f = find_config(config.extensions@.take(i as int), before[k].name@);
                                    assert(config.extensions@.take(i + 1)[f].0@ == before[k].name@);
                                }
                            }
                        }
                    }
                },
                None => {
                    self.states.push(st);
                    proof {
                        assert forall|a: int, b: int| 0 <= a < b < self.states@.len() implies (#[trigger] self.states@[a]).name@
                            != (#[trigger] self.states@[b]).name@ by {
                            if b < before.len() {
                                assert(before[a].name@ != before[b].name@);
                            } else {
                                assert(before[a].name@ != name@);
                            }
                        }
                        lemma_find_state(self.states@, name@);
                        assert forall|k: int| 0 <= k < i + 1 implies {
                            let q = find_state(self.states@, (#[trigger] config.extensions@[k]).0@);
                            q >= 0 && fresh_state(self.states@[q], config.extensions@[k].0@, config.extensions@[k].1)
                        } by {
                            if k < i {
                                let q0 = find_state(before, config.extensions@[k].0@);
                                assert(config.extensions@[k].0@ != name@);
                                lemma_find_state(before, config.extensions@[k].0@);
                                lemma_find_state(self.states@, config.extensions@[k].0@);
                                assert(self.states@[q0] == before[q0]);
                            }
                        }
                        assert forall|k: int| 0 <= k < self.states@.len() implies (find_config(config.extensions@.take(i + 1), (#[trigger] self.states@[k]).name@) >= 0
                            || exists|j: int| 0 <= j < old(self).states@.len() && old(self).states@[j] == self.states@[k]) by {
                            lemma_find_config(config.extensions@.take(i + 1), self.states@[k].name@);
                            lemma_find_config(config.extensions@.take(i as int), self.states@[k].name@);
                            if k == before.len() {
                                assert(config.extensions@.take(i + 1)[i as int].0@ == self.states@[k].name@);
                            } else {
                                assert(self.states@[k] == before[k]);
                                if find_config(config.extensions@.take(i as int), before[k].name@) >= 0 {
                                    let f = find_config(config.extensions@.take(i as int), before[k].name@);
                                    assert(config.extensions@.take(i + 1)[f].0@ == before[k].name@);
                                }
                            }
                        }
                    }
                },
            }
            i = i + 1;
        }
        proof {
            assert(config.extensions@.take(config.extensions@.len() as int) =~= config.extensions@);
        }
        self.auto_start_names()
    }

    /// The names, in order, of the extensions that start with the portal.
    pub fn auto_start_names(&self) -> (r: Vec<String>)
        ensures
            views(r@) == self.states@.filter(|s: ExtensionState| s.config.auto_start).map_values(
                |s: ExtensionState| s.name@,
            ),
    {
        let mut out: Vec<String> = Vec::new();
        let mut i: usize = 0;
        while i < self.states.len()
            invariant
                i <= self.states@.len(),
                views(out@) == self.states@.take(i as int).filter(|s: ExtensionState| s.config.auto_start).map_values(
                    |s: ExtensionState| s.name@,
                ),
            decreases self.states.len() - i,
        {
            proof {
                assert(self.states@.take(i + 1).drop_last() =~= self.states@.take(i as int));
                reveal(Seq::filter);
            }
            if self.states[i].config.auto_start {
                let n = self.states[i].name.as_str().to_owned();
                let ghost before = out@;
                out.push(n);
                proof {
                    assert(views(out@) =~= views(before).push(n@));
                    assert(views(out@) =~= self.states@.take(i + 1).filter(|s: ExtensionState| s.config.auto_start).map_values(
                        |s: ExtensionState| s.name@,
                    ));
                }
            } else {
                proof {
                    assert(views(out@) =~= self.states@.take(i + 1).filter(|s: ExtensionState| s.config.auto_start).map_values(
                        |s: ExtensionState| s.name@,
                    ));
                }
            }
            i = i + 1;
        }
        proof {
            assert(self.states@.take(self.states@.len() as int) =~= self.states@);
        }
        out
    }
}


/// Two states that differ at most in their status.
pub open spec fn same_but_status(a: ExtensionState, b: ExtensionState) -> bool {
    &&& a.name == b.name
    &&& a.config == b.config
    &&& a.tools == b.tools
    &&& a.last_error == b.last_error
    &&& a.restart_count == b.restart_count
}

impl ExtensionRegistry {
    /// Starting the extension `name`: refused when it is unknown; nothing
    /// to do when it runs; otherwise it becomes `Starting`, and its command
    /// (refused when empty) is to be spawned in its working directory with
    /// its environment.
    pub fn begin_start(&mut self, name: &str, workspace_root: &str, os: &TargetOs) -> (r: Result<
        StartAction,
        ExtensionError,
    >)
        requires
            old(self).wf(),
        ensures
            final(self).wf(),
            ({
                let k = find_state(old(self).states@, name@);
                if k < 0 {
                    &&& r matches Err(ExtensionError::NotFound(n)) && n@ == name@
                    &&& final(self).states@ == old(self).states@
                } else if old(self).states@[k].status == ExtensionStatus::Running {
                    &&& r matches Ok(StartAction::AlreadyRunning)
                    &&& final(self).states@ == old(self).states@
                } else {
                    let c = old(self).states@[k].config;
                    &&& final(self).states@.len() == old(self).states@.len()
                    &&& final(self).states@[k].status == ExtensionStatus::Starting
                    &&& same_but_status(final(self).states@[k], old(self).states@[k])
                    &&& forall|j: int|
                        0 <= j < old(self).states@.len() && j != k ==> final(self).states@[j]
                            == old(self).states@[j]
                    &&& if c.command@.len() == 0 {
                        r matches Err(ExtensionError::EmptyCommand(n)) && n@ == name@
                    } else {
                        r matches Ok(StartAction::Spawn(plan)) && plan.program@ == c.command@[0]@
                            && views(plan.args@) == views(c.command@).skip(1) && plan.working_dir@
                            == working_dir_of(c, workspace_root@, *os) && pair_views(plan.env@)
                            == pair_views(c.env@)
                    }
                }
            }),
    {
        proof {
            lemma_find_state(self.states@, name@);
        }
        let i = match self.position(name) {
            Some(i) => i,
            None => {
                return Err(ExtensionError::NotFound(name.to_owned()));
            },
        };
        if self.states[i].status == ExtensionStatus::Running {
            return Ok(StartAction::AlreadyRunning);
        }
        self.set_status(i, ExtensionStatus::Starting);
        let c = &self.states[i].config;
        if c.command.len() == 0 {
            return Err(ExtensionError::EmptyCommand(name.to_owned()));
        }
        let program = c.command[0].as_str().to_owned();
        let args = copy_strings(&c.command, 1);
        let working_dir = match &c.working_dir {
            Some(wd) => path_join_string(workspace_root, wd.as_str(), os),
            None => workspace_root.to_owned(),
        };
        let env = copy_pairs(&c.env);
        Ok(StartAction::Spawn(SpawnPlan { program, args, working_dir, env }))
    }

    /// The extension `name` was spawned: it runs, with no error recorded.
    pub fn finish_start(&mut self, name: &str)
        requires
            old(self).wf(),
            find_state(old(self).states@, name@) >= 0,
        ensures
            final(self).wf(),
            ({
                let k = find_state(old(self).states@, name@);
                &&& final(self).states@.len() == old(self).states@.len()
                &&& final(self).states@[k].status == ExtensionStatus::Running
                &&& final(self).states@[k].last_error is None
                &&& final(self).states@[k].name == old(self).states@[k].name
                &&& final(self).states@[k].config == old(self).states@[k].config
                &&& final(self).states@[k].tools == old(self).states@[k].tools
                &&& final(self).states@[k].restart_count == old(self).states@[k].restart_count
                &&& forall|j: int|
                    0 <= j < old(self).states@.len() && j != k ==> final(self).states@[j]
                        == old(self).states@[j]
            }),
    {
        proof {
            lemma_find_state(self.states@, name@);
        }
        let i = match self.position(name) {
            Some(i) => i,
            None => {
                return;
            },
        };
        let ghost before = self.states@;
        let mut st = self.states.remove(i);
        st.status = ExtensionStatus::Running;
        st.last_error = None;
        self.states.insert(i, st);
        proof {
            assert forall|a: int, b: int| 0 <= a < b < self.states@.len() implies (#[trigger] self.states@[a]).name@
                != (#[trigger] self.states@[b]).name@ by {
                assert(before[a].name == self.states@[a].name);
                assert(before[b].name == self.states@[b].name);
            }
        }
    }

    /// Stopping the extension `name`: refused when it is unknown; nothing to
    /// do when it is stopped (`Ok(false)`); otherwise it becomes `Stopped`
    /// with no tools, and its process is to be ended (`Ok(true)`).
    pub fn stop(&mut self, name: &str) -> (r: Result<bool, ExtensionError>)
        requires
            old(self).wf(),
        ensures
            final(self).wf(),
            ({
                let k = find_state(old(self).states@, name@);
                if k < 0 {
                    &&& r matches Err(ExtensionError::NotFound(n)) && n@ == name@
                    &&& final(self).states@ == old(self).states@
                } else if old(self).states@[k].status == ExtensionStatus::Stopped {
                    &&& r == Ok::<bool, ExtensionError>(false)
                    &&& final(self).states@ == old(self).states@
                } else {
                    &&& r == Ok::<bool, ExtensionError>(true)
                    &&& final(self).states@.len() == old(self).states@.len()
                    &&& final(self).states@[k].status == ExtensionStatus::Stopped
                    &&& final(self).states@[k].tools@.len() == 0
                    &&& final(self).states@[k].name == old(self).states@[k].name
                    &&& final(self).states@[k].config == old(self).states@[k].config
                    &&& final(self).states@[k].last_error == old(self).states@[k].last_error
                    &&& final(self).states@[k].restart_count == old(self).states@[k].restart_count
                    &&& forall|j: int|
                        0 <= j < old(self).states@.len() && j != k ==> final(self).states@[j]
                            == old(self).states@[j]
                }
            }),
    {
        proof {
            lemma_find_state(self.states@, name@);
        }
        let i = match self.position(name) {
            Some(i) => i,
            None => {
                return Err(ExtensionError::NotFound(name.to_owned()));
            },
        };
        if self.states[i].status == ExtensionStatus::Stopped {
            return Ok(false);
        }
        let ghost before = self.states@;
        let mut st = self.states.remove(i);
        st.status = ExtensionStatus::Stopped;
        st.tools = Vec::new();
        self.states.insert(i, st);
        proof {
            assert forall|a: int, b: int| 0 <= a < b < self.states@.len() implies (#[trigger] self.states@[a]).name@
                != (#[trigger] self.states@[b]).name@ by {
                assert(before[a].name == self.states@[a].name);
                assert(before[b].name == self.states@[b].name);
            }
        }
        Ok(true)
    }

    /// The first step of a restart: a known extension counts one more
    /// restart and becomes `Restarting` (then it is stopped and started).
    pub fn mark_restarting(&mut self, name: &str)
        requires
            old(self).wf(),
            find_state(old(self).states@, name@) >= 0 ==> old(self).states@[find_state(
                old(self).states@,
                name@,
            )].restart_count < u32::MAX,
        ensures
            final(self).wf(),
            ({
                let k = find_state(old(self).states@, name@);
                if k < 0 {
                    final(self).states@ == old(self).states@
                } else {
                    &&& final(self).states@.len() == old(self).states@.len()
                    &&& final(self).states@[k].status == ExtensionStatus::Restarting
                    &&& final(self).states@[k].restart_count == old(self).states@[k].restart_count + 1
                    &&& final(self).states@[k].name == old(self).states@[k].name
                    &&& final(self).states@[k].config == old(self).states@[k].config
                    &&& final(self).states@[k].tools == old(self).states@[k].tools
                    &&& final(self).states@[k].last_error == old(self).states@[k].last_error
                    &&& forall|j: int|
                        0 <= j < old(self).states@.len() && j != k ==> final(self).states@[j]
                            == old(self).states@[j]
                }
            }),
    {
        proof {
            lemma_find_state(self.states@, name@);
        }
        let i = match self.position(name) {
            Some(i) => i,
            None => {
                return;
            },
        };
        let ghost before = self.states@;
        let mut st = self.states.remove(i);
        st.restart_count = st.restart_count + 1;
        st.status = ExtensionStatus::Restarting;
        self.states.insert(i, st);
        proof {
            assert forall|a: int, b: int| 0 <= a < b < self.states@.len() implies (#[trigger] self.states@[a]).name@
                != (#[trigger] self.states@[b]).name@ by {
                assert(before[a].name == self.states@[a].name);
                assert(before[b].name == self.states@[b].name);
            }
        }
    }

    /// Each extension's name, status and last error, in order.
    pub fn status_list(&self) -> (r: Vec<(String, ExtensionStatus, Option<String>)>)
        ensures
            r@.len() == self.states@.len(),
            forall|i: int|
                0 <= i < r@.len() ==> {
                    &&& (#[trigger] r@[i]).0@ == self.states@[i].name@
                    &&& r@[i].1 == self.states@[i].status
                    &&& opt_view(r@[i].2) == opt_view(self.states@[i].last_error)
                },
    {
        let mut out: Vec<(String, ExtensionStatus, Option<String>)> = Vec::new();
        let mut i: usize = 0;
        while i < self.states.len()
            invariant
                i <= self.states@.len(),
                out@.len() == i,
                forall|k: int|
                    0 <= k < i ==> {
                        &&& (#[trigger] out@[k]).0@ == self.states@[k].name@
                        &&& out@[k].1 == self.states@[k].status
                        &&& opt_view(out@[k].2) == opt_view(self.states@[k].last_error)
                    },
            decreases self.states.len() - i,
        {
            let st = &self.states[i];
            out.push((st.name.as_str().to_owned(), st.status, copy_opt(&st.last_error)));
            i = i + 1;
        }
        out
    }

    /// The tools of the running extensions, extension by extension.
    pub fn all_tools(&self) -> (r: Vec<ToolInfo>)
        ensures
            tool_names(r@) == running_tool_names(self.states@),
    {
        let mut out: Vec<ToolInfo> = Vec::new();
        let mut i: usize = 0;
        while i < self.states.len()
            invariant
                i <= self.states@.len(),
                tool_names(out@) == running_tool_names(self.states@.take(i as int)),
            decreases self.states.len() - i,
        {
            proof {
                assert(self.states@.take(i + 1).drop_last() =~= self.states@.take(i as int));
            }
            let st = &self.states[i];
            if st.status == ExtensionStatus::Running {
                let mut j: usize = 0;
                let ghost base = out@;
                while j < st.tools.len()
                    invariant
                        j <= st.tools@.len(),
                        tool_names(out@) == tool_names(base) + tool_names(st.tools@.take(j as int)),
                    decreases st.tools.len() - j,
                {
                    let t = &st.tools[j];
                    let copy = ToolInfo {
                        name: t.name.as_str().to_owned(),
                        description: t.description.as_str().to_owned(),
                        input_schema: t.input_schema.as_str().to_owned(),
                    };
                    let ghost before = out@;
                    out.push(copy);
                    proof {
                        assert(tool_names(out@) =~= tool_names(before).push(t.name@));
                        assert(tool_names(st.tools@.take(j + 1)) =~= tool_names(st.tools@.take(j as int)).push(t.name@));
                    }
                    j = j + 1;
                }
                proof {
                    assert(st.tools@.take(st.tools@.len() as int) =~= st.tools@);
                }
            }
            i = i + 1;
        }
        proof {
            assert(self.states@.take(self.states@.len() as int) =~= self.states@);
        }
        out
    }

    /// Calling `tool`: the first running extension that offers it answers
    /// (its reply text names the tool and the extension); otherwise the
    /// call is refused.
    pub fn call_tool(&self, tool: &str) -> (r: Result<String, ExtensionError>)
        ensures
            match first_offering(self.states@, tool@) {
                Some(k) => r matches Ok(t) && t@ == "Tool '"@ + tool@ + "' called on extension '"@
                    + self.states@[k].name@ + "'"@,
                None => r matches Err(ExtensionError::ToolNotFound(t)) && t@ == tool@,
            },
    {
        let mut i: usize = 0;
        assert(self.states@.skip(0) =~= self.states@);
        while i < self.states.len()
            invariant
                i <= self.states@.len(),
                first_offering(self.states@, tool@) == match first_offering(self.states@.skip(i as int), tool@) {
                    Some(k) => Some(k + i),
                    None => None::<int>,
                },
            decreases self.states.len() - i,
        {
            proof {
                assert(self.states@.skip(i as int).drop_first() =~= self.states@.skip(i + 1));
                assert(self.states@.skip(i as int)[0] == self.states@[i as int]);
            }
            let st = &self.states[i];
            if st.status == ExtensionStatus::Running {
                let mut j: usize = 0;
                while j < st.tools.len()
                    invariant
                        j <= st.tools@.len(),
                        i < self.states@.len(),
                        *st == self.states@[i as int],
                        st.status == ExtensionStatus::Running,
                        self.states@.skip(i as int)[0] == self.states@[i as int],
                        first_offering(self.states@, tool@) == match first_offering(self.states@.skip(i as int), tool@) {
                            Some(k) => Some(k + i),
                            None => None::<int>,
                        },
                        forall|k: int| 0 <= k < j ==> (#[trigger] st.tools@[k]).name@ != tool@,
                    decreases st.tools.len() - j,
                {
                    if same_text(st.tools[j].name.as_str(), tool) {
                        assert(offers(*st, tool@));
                        let mut m = String::from_str("Tool '");
                        m.append(tool);
                        m.append("' called on extension '");
                        m.append(st.name.as_str());
                        m.append("'");
                        return Ok(m);
                    }
                    j = j + 1;
                }
                assert(!offers(*st, tool@));
            }
            i = i + 1;
        }
        Err(ExtensionError::ToolNotFound(tool.to_owned()))
    }
}

/// The tools' names.
pub open spec fn tool_names(t: Seq<ToolInfo>) -> Seq<Seq<char>> {
    t.map_values(|x: ToolInfo| x.name@)
}

/// The names of the tools of the running extensions, in order.
pub open spec fn running_tool_names(s: Seq<ExtensionState>) -> Seq<Seq<char>>
    decreases s.len(),
{
    if s.len() == 0 {
        Seq::empty()
    } else if s.last().status == ExtensionStatus::Running {
        running_tool_names(s.drop_last()) + tool_names(s.last().tools@)
    } else {
        running_tool_names(s.drop_last())
    }
}

/// The extension runs and offers `tool`.
pub open spec fn offers(s: ExtensionState, tool: Seq<char>) -> bool {
    s.status == ExtensionStatus::Running && exists|k: int|
        0 <= k < s.tools@.len() && (#[trigger] s.tools@[k]).name@ == tool
}

/// The first extension that runs and offers `tool`.
pub open spec fn first_offering(s: Seq<ExtensionState>, tool: Seq<char>) -> Option<int>
    decreases s.len(),
{
    if s.len() == 0 {
        None
    } else if offers(s[0], tool) {
        Some(0)
    } else {
        match first_offering(s.drop_first(), tool) {
            Some(k) => Some(k + 1),
            None => None,
        }
    }
}

fn path_join_string(base: &str, rel: &str, os: &TargetOs) -> (r: String)
    ensures
        r@ == path_join(base@, rel@, *os),
{
    if crate::config::path_is_absolute(rel, os) {
        rel.to_owned()
    } else {
        crate::config::resolve_relative(base, rel, os)
    }
}


/// A state after a reload: its name is configured and it has the new
/// configuration; an extension that existed keeps its status, tools, last
/// error and restart count, a new one is fresh.
pub open spec fn reloaded(s: ExtensionState, old: Seq<ExtensionState>, cfg: Seq<(String, ExtensionConfig)>) -> bool {
    let j = find_config(cfg, s.name@);
    let k = find_state(old, s.name@);
    &&& j >= 0
    &&& same_config(s.config, cfg[j].1)
    &&& if k >= 0 {
        &&& s.status == old[k].status
        &&& s.tools == old[k].tools
        &&& s.last_error == old[k].last_error
        &&& s.restart_count == old[k].restart_count
    } else {
        fresh_state(s, s.name@, cfg[j].1)
    }
}

impl ExtensionRegistry {
    fn config_position(cfg: &Vec<(String, ExtensionConfig)>, name: &str) -> (r: Option<usize>)
        ensures
            match r {
                Some(i) => i == find_config(cfg@, name@),
                None => find_config(cfg@, name@) < 0,
            },
    {
        let mut i = cfg.len();
        assert(cfg@.take(i as int) =~= cfg@);
        while i > 0
            invariant
                i <= cfg@.len(),
                find_config(cfg@, name@) == find_config(cfg@.take(i as int), name@),
            decreases i,
        {
            proof {
                assert(cfg@.take(i as int).drop_last() =~= cfg@.take(i - 1));
            }
            if same_text(cfg[i - 1].0.as_str(), name) {
                return Some(i - 1);
            }
            i = i - 1;
        }
        None
    }

    /// Applies a new configuration: extensions no longer listed leave
    /// (a running one is reported as stopped), listed ones take their new
    /// configuration (reported as updated when the command, working directory
    /// or environment changed), and new ones are added stopped. Returns the
    /// change reports: the removals in registry order, then the updates and
    /// additions in configuration order.
    pub fn reload(&mut self, config: &ExtensionsConfig) -> (changes: Vec<String>)
        requires
            old(self).wf(),
            config_names_unique(config.extensions@),
        ensures
            final(self).wf(),
            forall|a: int|
                0 <= a < final(self).states@.len() ==> reloaded(
                    #[trigger] final(self).states@[a],
                    old(self).states@,
                    config.extensions@,
                ),
            forall|j: int|
                0 <= j < config.extensions@.len() ==> find_state(
                    final(self).states@,
                    (#[trigger] config.extensions@[j]).0@,
                ) >= 0,
            views(changes@) == removed_messages(old(self).states@, config.extensions@)
                + added_messages(old(self).states@, config.extensions@),
    {
        let ghost old_states = self.states@;
        let ghost cfg = config.extensions@;
        let mut rest: Vec<ExtensionState> = Vec::new();
        std::mem::swap(&mut rest, &mut self.states);
        let mut kept: Vec<ExtensionState> = Vec::new();
        let mut changes: Vec<String> = Vec::new();
        let ghost mut idx: Seq<int> = Seq::empty();
        let ghost mut i: int = 0;
        proof {
            assert(old_states.skip(0) =~= old_states);
            assert(old_states.take(0) =~= Seq::<ExtensionState>::empty());
        }
        while rest.len() > 0
            invariant
                0 <= i <= old_states.len(),
                state_names_unique(old_states),
                config_names_unique(cfg),
                cfg == config.extensions@,
                rest@ == old_states.skip(i),
                idx.len() == kept@.len(),
                state_names_unique(kept@),
                forall|a: int|
                    0 <= a < kept@.len() ==> 0 <= idx[a] < i && #[trigger] kept@[a] == old_states[idx[a]]
                        && find_config(cfg, kept@[a].name@) >= 0,
                forall|m: int|
                    0 <= m < i && find_config(cfg, (#[trigger] old_states[m]).name@) >= 0 ==> find_state(
                        kept@,
                        old_states[m].name@,
                    ) >= 0,
                views(changes@) == removed_messages(old_states.take(i), cfg),
            decreases rest.len(),
        {
            let st = rest.remove(0);
            proof {
                assert(st == old_states[i]);
                assert(old_states.skip(i).drop_first() =~= old_states.skip(i + 1));
                assert(old_states.take(i + 1).drop_last() =~= old_states.take(i));
                assert(old_states.take(i + 1).last() == st);
            }
            match Self::config_position(&config.extensions, st.name.as_str()) {
                None => {
                    if st.status == ExtensionStatus::Running {
                        let mut m = String::from_str("Stopped removed extension: ");
                        m.append(st.name.as_str());
                        let ghost before = changes@;
                        changes.push(m);
                        proof {
                            assert(views(changes@) =~= views(before).push(m@));
                        }
                    }
                },
                Some(_) => {
                    let ghost before = kept@;
                    proof {
                        lemma_find_state(before, st.name@);
                    }
                    kept.push(st);
                    proof {
                        assert forall|a: int, b: int| 0 <= a < b < kept@.len() implies (#[trigger] kept@[a]).name@
                            != (#[trigger] kept@[b]).name@ by {
                            if b < before.len() {
                                assert(before[a].name@ != before[b].name@);
                            } else {
                                assert(kept@[a] == old_states[idx[a]]);
                                assert(idx[a] != i);
                            }
                        }
                        idx = idx.push(i);
                        assert forall|m: int|
                            0 <= m < i + 1 && find_config(cfg, (#[trigger] old_states[m]).name@) >= 0 implies find_state(
                                kept@,
                                old_states[m].name@,
                            ) >= 0 by {
                            assert(kept@.drop_last() =~= before);
                        }
                    }
                },
            }
            proof {
                i = i + 1;
            }
        }
        proof {
            assert(old_states.skip(i).len() == 0);
            assert(i == old_states.len());
            assert(old_states.take(i) =~= old_states);
            assert(cfg.take(0) =~= Seq::<(String, ExtensionConfig)>::empty());
        }
        proof {
            assert forall|a: int| 0 <= a < kept@.len() implies {
                let nm = (#[trigger] kept@[a]).name@;
                let k = find_state(old_states, nm);
                k >= 0 && kept@[a] == old_states[k]
            } by {
                lemma_find_state(old_states, kept@[a].name@);
                assert(kept@[a] == old_states[idx[a]]);
            }
        }
        let mut j: usize = 0;
        while j < config.extensions.len()
            invariant
                j <= cfg.len(),
                cfg == config.extensions@,
                state_names_unique(old_states),
                config_names_unique(cfg),
                state_names_unique(kept@),
                forall|a: int|
                    0 <= a < kept@.len() ==> {
                        let nm = (#[trigger] kept@[a]).name@;
                        let fc = find_config(cfg, nm);
                        let k = find_state(old_states, nm);
                        &&& fc >= 0
                        &&& if fc < j {
                            &&& same_config(kept@[a].config, cfg[fc].1)
                            &&& if k >= 0 {
                                &&& kept@[a].status == old_states[k].status
                                &&& kept@[a].tools == old_states[k].tools
                                &&& kept@[a].last_error == old_states[k].last_error
                                &&& kept@[a].restart_count == old_states[k].restart_count
                            } else {
                                fresh_state(kept@[a], nm, cfg[fc].1)
                            }
                        } else {
                            k >= 0 && kept@[a] == old_states[k]
                        }
                    },
                forall|b: int| 0 <= b < j ==> find_state(kept@, (#[trigger] cfg[b]).0@) >= 0,
                forall|m: int|
                    0 <= m < old_states.len() && find_config(cfg, (#[trigger] old_states[m]).name@) >= j
                        ==> find_state(kept@, old_states[m].name@) >= 0,
                views(changes@) == removed_messages(old_states, cfg) + added_messages(old_states, cfg.take(j as int)),
            decreases config.extensions.len() - j,
        {
            let (name, c) = &config.extensions[j];
            let ghost before = kept@;
            proof {
                assert(cfg.take(j + 1).drop_last() =~= cfg.take(j as int));
                assert(cfg.take(j + 1).last() == cfg[j as int]);
                lemma_find_config(cfg, name@);
                lemma_find_state(old_states, name@);
                lemma_find_state(before, name@);
                assert(find_config(cfg, name@) == j);
            }
            match self_position(&kept, name.as_str()) {
                Some(p) => {
                    proof {
                        let k = find_state(old_states, name@);
                        assert(before[p as int].name@ == name@);
                        assert(find_config(cfg, before[p as int].name@) == j);
                        assert(k >= 0 && before[p as int] == old_states[k]);
                    }
                    let changed = config_changed(&kept[p].config, c);
                    let mut st = kept.remove(p);
                    st.config = copy_config(c);
                    kept.insert(p, st);
                    if changed {
                        let mut m = String::from_str("Updated extension: ");
                        m.append(name.as_str());
                        let ghost cb = changes@;
                        changes.push(m);
                        proof {
                            assert(views(changes@) =~= views(cb).push(m@));
                        }
                    }
                    proof {
                        assert forall|a: int, b: int| 0 <= a < b < kept@.len() implies (#[trigger] kept@[a]).name@
                            != (#[trigger] kept@[b]).name@ by {
                            assert(before[a].name == kept@[a].name);
                            assert(before[b].name == kept@[b].name);
                        }
                        assert forall|a: int| 0 <= a < kept@.len() && a != p implies #[trigger] kept@[a] == before[a] by {}
                        assert forall|a: int| 0 <= a < kept@.len() implies {
                            let nm = (#[trigger] kept@[a]).name@;
                            let fc = find_config(cfg, nm);
                            let k = find_state(old_states, nm);
                            &&& fc >= 0
                            &&& if fc < j + 1 {
                                &&& same_config(kept@[a].config, cfg[fc].1)
                                &&& if k >= 0 {
                                    &&& kept@[a].status == old_states[k].status
                                    &&& kept@[a].tools == old_states[k].tools
                                    &&& kept@[a].last_error == old_states[k].last_error
                                    &&& kept@[a].restart_count == old_states[k].restart_count
                                } else {
                                    fresh_state(kept@[a], nm, cfg[fc].1)
                                }
                            } else {
                                k >= 0 && kept@[a] == old_states[k]
                            }
                        } by {
                            if a == p {
                                assert(kept@[a].name == before[a].name);
                                assert(kept@[a].name@ == name@);
                            } else {
                                assert(kept@[a] == before[a]);
                                lemma_find_config(cfg, before[a].name@);
                                if find_config(cfg, before[a].name@) == j {
                                    assert(before[a].name@ == name@);
                                    assert(before[p as int].name@ == name@);
                                    assert(false);
                                }
                            }
                        }
                        lemma_find_state(kept@, name@);
                        assert forall|b: int| 0 <= b < j + 1 implies find_state(kept@, (#[trigger] cfg[b]).0@) >= 0 by {
                            lemma_find_state(before, cfg[b].0@);
                            lemma_find_state(kept@, cfg[b].0@);
                            if b < j {
                                let q = find_state(before, cfg[b].0@);
                                assert(kept@[q].name == before[q].name);
                            } else {
                                assert(kept@[p as int].name@ == name@);
                            }
                        }
                        assert forall|m: int|
                            0 <= m < old_states.len() && find_config(cfg, (#[trigger] old_states[m]).name@) >= j + 1
                                implies find_state(kept@, old_states[m].name@) >= 0 by {
                            lemma_find_state(before, old_states[m].name@);
                            lemma_find_state(kept@, old_states[m].name@);
                            let q = find_state(before, old_states[m].name@);
                            assert(kept@[q].name == before[q].name);
                        }
                    }
                },
                None => {
                    proof {
                        assert(find_state(old_states, name@) < 0) by {
                            if find_state(old_states, name@) >= 0 {
                                let m = find_state(old_states, name@);
                                assert(old_states[m].name@ == name@);
                            }
                        }
                    }
                    let st = new_state(name, c);
                    kept.push(st);
                    let mut m = String::from_str("Added new extension: ");
                    m.append(name.as_str());
                    let ghost cb = changes@;
                    changes.push(m);
                    proof {
                        assert(views(changes@) =~= views(cb).push(m@));
                        assert forall|a: int, b: int| 0 <= a < b < kept@.len() implies (#[trigger] kept@[a]).name@
                            != (#[trigger] kept@[b]).name@ by {
                            if b < before.len() {
                                assert(before[a].name@ != before[b].name@);
                            } else {
                                assert(before[a].name@ != name@);
                            }
                        }
                        assert(kept@.drop_last() =~= before);
                        assert forall|b: int| 0 <= b < j + 1 implies find_state(kept@, (#[trigger] cfg[b]).0@) >= 0 by {
                            if b < j {
                                lemma_find_state(before, cfg[b].0@);
                            }
                        }
                        assert forall|a: int| 0 <= a < kept@.len() implies {
                            let nm = (#[trigger] kept@[a]).name@;
                            let fc = find_config(cfg, nm);
                            let k = find_state(old_states, nm);
                            &&& fc >= 0
                            &&& if fc < j + 1 {
                                &&& same_config(kept@[a].config, cfg[fc].1)
                                &&& if k >= 0 {
                                    &&& kept@[a].status == old_states[k].status
                                    &&& kept@[a].tools == old_states[k].tools
                                    &&& kept@[a].last_error == old_states[k].last_error
                                    &&& kept@[a].restart_count == old_states[k].restart_count
                                } else {
                                    fresh_state(kept@[a], nm, cfg[fc].1)
                                }
                            } else {
                                k >= 0 && kept@[a] == old_states[k]
                            }
                        } by {
                            if a < before.len() {
                                assert(kept@[a] == before[a]);
                                lemma_find_config(cfg, before[a].name@);
                                if find_config(cfg, before[a].name@) == j {
                                    assert(cfg[j as int].0@ == before[a].name@);
                                    assert(false);
                                }
                            }
                        }
                    }
                },
            }
            j = j + 1;
        }
        proof {
            assert(cfg.take(cfg.len() as int) =~= cfg);
            assert forall|a: int| 0 <= a < kept@.len() implies reloaded(#[trigger] kept@[a], old_states, cfg) by {
                lemma_find_config(cfg, kept@[a].name@);
            }
        }
        self.states = kept;
        changes
    }
}

fn self_position(states: &Vec<ExtensionState>, name: &str) -> (r: Option<usize>)
    ensures
        match r {
            Some(i) => i == find_state(states@, name@),
            None => find_state(states@, name@) < 0,
        },
{
    let mut i = states.len();
    assert(states@.take(i as int) =~= states@);
    while i > 0
        invariant
            i <= states@.len(),
            find_state(states@, name@) == find_state(states@.take(i as int), name@),
        decreases i,
    {
        proof {
            assert(states@.take(i as int).drop_last() =~= states@.take(i - 1));
        }
        if same_text(states[i - 1].name.as_str(), name) {
            return Some(i - 1);
        }
        i = i - 1;
    }
    None
}


/// The configured extensions that start with the portal and are known and
/// stopped: the ones a reload starts, in configuration order.
pub open spec fn to_start_after_reload(s: Seq<ExtensionState>, cfg: Seq<(String, ExtensionConfig)>) -> Seq<
    Seq<char>,
>
    decreases cfg.len(),
{
    if cfg.len() == 0 {
        Seq::empty()
    } else {
        let (name, c) = cfg.last();
        let rest = to_start_after_reload(s, cfg.drop_last());
        let k = find_state(s, name@);
        if c.auto_start && k >= 0 && s[k].status == ExtensionStatus::Stopped {
            rest.push(name@)
        } else {
            rest
        }
    }
}

impl ExtensionRegistry {
    /// The extensions a reload starts (see [`to_start_after_reload`]).
    pub fn starts_after_reload(&self, config: &ExtensionsConfig) -> (r: Vec<String>)
        ensures
            views(r@) == to_start_after_reload(self.states@, config.extensions@),
    {
        let mut out: Vec<String> = Vec::new();
        let mut j: usize = 0;
        while j < config.extensions.len()
            invariant
                j <= config.extensions@.len(),
                views(out@) == to_start_after_reload(self.states@, config.extensions@.take(j as int)),
            decreases config.extensions.len() - j,
        {
            let (name, c) = &config.extensions[j];
            proof {
                assert(config.extensions@.take(j + 1).drop_last() =~= config.extensions@.take(j as int));
                assert(config.extensions@.take(j + 1).last() == config.extensions@[j as int]);
                lemma_find_state(self.states@, name@);
            }
            if c.auto_start {
                match self_position(&self.states, name.as_str()) {
                    Some(k) => {
                        if self.states[k].status == ExtensionStatus::Stopped {
                            let n = name.as_str().to_owned();
                            let ghost before = out@;
                            out.push(n);
                            proof {
                                assert(views(out@) =~= views(before).push(n@));
                            }
                        }
                    },
                    None => {},
                }
            }
            j = j + 1;
        }
        proof {
            assert(config.extensions@.take(config.extensions@.len() as int) =~= config.extensions@);
        }
        out
    }
}


proof fn lemma_no_removals(s: Seq<ExtensionState>, cfg: Seq<(String, ExtensionConfig)>)
    requires
        forall|a: int| 0 <= a < s.len() ==> find_config(cfg, (#[trigger] s[a]).name@) >= 0,
    ensures
        removed_messages(s, cfg) == Seq::<Seq<char>>::empty(),
    decreases s.len(),
{
    if s.len() > 0 {
        let t = s.drop_last();
        assert forall|a: int| 0 <= a < t.len() implies find_config(cfg, (#[trigger] t[a]).name@) >= 0 by {
            assert(t[a] == s[a]);
        }
        lemma_no_removals(t, cfg);
        assert(find_config(cfg, s[s.len() - 1].name@) >= 0);
    }
}

proof fn lemma_no_additions(s: Seq<ExtensionState>, cfg: Seq<(String, ExtensionConfig)>)
    requires
        forall|j: int|
            0 <= j < cfg.len() ==> find_state(s, (#[trigger] cfg[j]).0@) >= 0 && !critical_change(
                s[find_state(s, cfg[j].0@)].config,
                cfg[j].1,
            ),
    ensures
        added_messages(s, cfg) == Seq::<Seq<char>>::empty(),
    decreases cfg.len(),
{
    if cfg.len() > 0 {
        let t = cfg.drop_last();
        assert forall|j: int| 0 <= j < t.len() implies find_state(s, (#[trigger] t[j]).0@) >= 0
            && !critical_change(s[find_state(s, t[j].0@)].config, t[j].1) by {
            assert(t[j] == cfg[j]);
        }
        lemma_no_additions(s, t);
        assert(find_state(s, cfg[cfg.len() - 1].0@) >= 0);
    }
}

proof fn lemma_same_config_no_change(a: ExtensionConfig, b: ExtensionConfig)
    requires
        same_config(a, b),
    ensures
        !critical_change(a, b),
{
    let x = pair_views(a.env@);
    assert forall|i: int| 0 <= i < x.len() implies pair_views(b.env@).contains(#[trigger] x[i]) by {
        assert(pair_views(b.env@)[i] == x[i]);
    }
}

/// Reloading the configuration that was just applied reports no change:
/// nothing is removed, updated or added.
pub proof fn lemma_reload_settles(
    old: Seq<ExtensionState>,
    s: Seq<ExtensionState>,
    cfg: Seq<(String, ExtensionConfig)>,
)
    requires
        state_names_unique(s),
        config_names_unique(cfg),
        forall|a: int| 0 <= a < s.len() ==> reloaded(#[trigger] s[a], old, cfg),
        forall|j: int| 0 <= j < cfg.len() ==> find_state(s, (#[trigger] cfg[j]).0@) >= 0,
    ensures
        removed_messages(s, cfg) == Seq::<Seq<char>>::empty(),
        added_messages(s, cfg) == Seq::<Seq<char>>::empty(),
{
    assert forall|a: int| 0 <= a < s.len() implies find_config(cfg, (#[trigger] s[a]).name@) >= 0 by {
        assert(reloaded(s[a], old, cfg));
    }
    lemma_no_removals(s, cfg);
    assert forall|j: int|
        0 <= j < cfg.len() implies find_state(s, (#[trigger] cfg[j]).0@) >= 0 && !critical_change(
            s[find_state(s, cfg[j].0@)].config,
            cfg[j].1,
        ) by {
        let k = find_state(s, cfg[j].0@);
        lemma_find_state(s, cfg[j].0@);
        lemma_find_config(cfg, cfg[j].0@);
        assert(reloaded(s[k], old, cfg));
        assert(s[k].name@ == cfg[j].0@);
        assert(find_config(cfg, s[k].name@) == j);
        lemma_same_config_no_change(s[k].config, cfg[j].1);
    }
    lemma_no_additions(s, cfg);
}

} // verus!
