//! The registry of installed kits: one entry per kit name, kept in name
//! order, and its refresh from a new scan of the kits directory. A kit whose
//! manifest changed starts over (healthy, without a connection); a new kit
//! starts unhealthy when its program is missing; a kit no longer found is
//! dropped.
use vstd::prelude::*;
use crate::cowork::{
    lemma_text_less_asymmetric, lemma_text_less_irreflexive, lemma_text_less_total,
    lemma_text_less_transitive, less_text, text_less,
};
use crate::kits::{pre_unhealthy, KitHealth, KitManifest, KitToolDef};
use crate::text::{chars_of, in_list, list_contains, same_text, views};

verus! {

/// The view of an optional text.
pub open spec fn opt_text_view(o: Option<String>) -> Option<Seq<char>> {
    match o {
        Some(s) => Some(s@),
        None => None,
    }
}

/// The view of an optional list of texts.
pub open spec fn opt_texts_view(o: Option<Vec<String>>) -> Option<Seq<Seq<char>>> {
    match o {
        Some(v) => Some(views(v@)),
        None => None,
    }
}

/// The views of tool definitions: name, description, parameter schema.
pub open spec fn tool_def_views(ts: Seq<KitToolDef>) -> Seq<(Seq<char>, Seq<char>, Seq<char>)> {
    ts.map_values(|t: KitToolDef| (t.name@, t.description@, t.params@))
}

/// A manifest by value: every field, in three groups.
pub type ManifestView = (
    (Seq<char>, Seq<char>, Option<Seq<char>>, Option<Seq<char>>),
    (Option<Seq<Seq<char>>>, Option<Seq<char>>, Seq<Seq<char>>),
    (Seq<(Seq<char>, Seq<char>, Seq<char>)>, Option<Seq<Seq<char>>>, Option<bool>, Option<bool>),
);

/// An entry by value: manifest, directory, command, health, connected.
pub type EntryView = (ManifestView, Seq<char>, Seq<Seq<char>>, KitHealth, bool);

/// A scanned kit by value: manifest, directory, command, and whether it
/// starts unhealthy.
pub type FreshView = (ManifestView, Seq<char>, Seq<Seq<char>>, bool);

/// The view of a manifest.
pub open spec fn manifest_view(m: KitManifest) -> ManifestView {
    (
        (m.name@, m.version@, opt_text_view(m.description), opt_text_view(m.author)),
        (opt_texts_view(m.platform), opt_text_view(m.runtime), views(m.command@)),
        (tool_def_views(m.tools@), opt_texts_view(m.permissions), m.workspace, m.eager),
    )
}

/// Whether two lists of texts are equal.
pub fn same_texts(a: &Vec<String>, b: &Vec<String>) -> (r: bool)
    ensures
        r == (views(a@) == views(b@)),
{
    if a.len() != b.len() {
        proof {
            assert(views(a@).len() != views(b@).len());
        }
        return false;
    }
    let mut i: usize = 0;
    while i < a.len()
        invariant
            i <= a@.len(),
            a@.len() == b@.len(),
            forall|k: int| 0 <= k < i ==> a@[k]@ == b@[k]@,
        decreases a.len() - i,
    {
        if !same_text(a[i].as_str(), b[i].as_str()) {
            proof {
                assert(views(a@)[i as int] != views(b@)[i as int]);
            }
            return false;
        }
        i = i + 1;
    }
    proof {
        assert(views(a@) =~= views(b@));
    }
    true
}

/// Whether two optional texts are equal.
pub fn same_opt_text(a: &Option<String>, b: &Option<String>) -> (r: bool)
    ensures
        r == (opt_text_view(*a) == opt_text_view(*b)),
{
    match (a, b) {
        (Some(x), Some(y)) => same_text(x.as_str(), y.as_str()),
        (None, None) => true,
        _ => false,
    }
}

/// Whether two optional lists of texts are equal.
pub fn same_opt_texts(a: &Option<Vec<String>>, b: &Option<Vec<String>>) -> (r: bool)
    ensures
        r == (opt_texts_view(*a) == opt_texts_view(*b)),
{
    match (a, b) {
        (Some(x), Some(y)) => same_texts(x, y),
        (None, None) => true,
        _ => false,
    }
}

/// Whether two optional flags are equal.
fn same_opt_flag(a: Option<bool>, b: Option<bool>) -> (r: bool)
    ensures
        r == (a == b),
{
    match (a, b) {
        (Some(x), Some(y)) => x == y,
        (None, None) => true,
        _ => false,
    }
}

/// Whether two lists of tool definitions are equal.
pub fn same_tools(a: &Vec<KitToolDef>, b: &Vec<KitToolDef>) -> (r: bool)
    ensures
        r == (tool_def_views(a@) == tool_def_views(b@)),
{
    if a.len() != b.len() {
        proof {
            assert(tool_def_views(a@).len() != tool_def_views(b@).len());
        }
        return false;
    }
    let mut i: usize = 0;
    while i < a.len()
        invariant
            i <= a@.len(),
            a@.len() == b@.len(),
            forall|k: int| 0 <= k < i ==> tool_def_views(a@)[k] == tool_def_views(b@)[k],
        decreases a.len() - i,
    {
        let x = &a[i];
        let y = &b[i];
        if !(same_text(x.name.as_str(), y.name.as_str()) && same_text(x.description.as_str(), y.description.as_str())
            && same_text(x.params.as_str(), y.params.as_str())) {
            proof {
                assert(tool_def_views(a@)[i as int] != tool_def_views(b@)[i as int]);
            }
            return false;
        }
        i = i + 1;
    }
    proof {
        assert(tool_def_views(a@) =~= tool_def_views(b@));
    }
    true
}

/// Whether two manifests are equal in every field.
pub fn same_manifest(a: &KitManifest, b: &KitManifest) -> (r: bool)
    ensures
        r == (manifest_view(*a) == manifest_view(*b)),
{
    same_text(a.name.as_str(), b.name.as_str()) && same_text(a.version.as_str(), b.version.as_str())
        && same_opt_text(&a.description, &b.description) && same_opt_text(&a.author, &b.author)
        && same_opt_texts(&a.platform, &b.platform) && same_opt_text(&a.runtime, &b.runtime)
        && same_texts(&a.command, &b.command) && same_tools(&a.tools, &b.tools) && same_opt_texts(
        &a.permissions,
        &b.permissions,
    ) && same_opt_flag(a.workspace, b.workspace) && same_opt_flag(a.eager, b.eager)
}


/// A kit the registry holds: its manifest, directory and command, its
/// health, and whether a connection to its process is kept.
#[derive(Debug)]
pub struct KitEntry {
    pub manifest: KitManifest,
    pub dir: String,
    pub command: Vec<String>,
    pub health: KitHealth,
    pub connected: bool,
}

/// A kit found by a scan of the kits directory, and whether its program
/// was found.
#[derive(Debug)]
pub struct FreshKit {
    pub manifest: KitManifest,
    pub dir: String,
    pub command: Vec<String>,
    pub binary_found: bool,
}

/// The kits, one entry per name, in name order.
#[derive(Debug)]
pub struct KitRegistry {
    pub entries: Vec<KitEntry>,
}

/// The view of an entry: manifest, directory, command, health, connected.
pub open spec fn entry_view(e: KitEntry) -> EntryView {
    (manifest_view(e.manifest), e.dir@, views(e.command@), e.health, e.connected)
}

/// The view of a scanned kit: manifest, directory, command, and whether it
/// starts unhealthy (no command, or a program that was not found).
pub open spec fn fresh_view(f: FreshKit) -> FreshView {
    (
        manifest_view(f.manifest),
        f.dir@,
        views(f.command@),
        f.command@.len() == 0 || (f.command@[0]@.len() > 0 && !f.binary_found),
    )
}

/// The views of scanned kits.
pub open spec fn fresh_views(fs: Seq<FreshKit>) -> Seq<
    FreshView,
> {
    fs.map_values(|f: FreshKit| fresh_view(f))
}

/// The names of the entries strictly increase.
pub open spec fn names_sorted(es: Seq<KitEntry>) -> bool {
    forall|i: int, j: int|
        0 <= i < j < es.len() ==> text_less(#[trigger] es[i].manifest.name@, #[trigger] es[j].manifest.name@)
}

/// Some entry is named `name`.
pub open spec fn has_kit(es: Seq<KitEntry>, name: Seq<char>) -> bool {
    exists|i: int| 0 <= i < es.len() && #[trigger] es[i].manifest.name@ == name
}

/// The entry named `name`, by view (the first, in order).
pub open spec fn kit_named(es: Seq<KitEntry>, name: Seq<char>) -> Option<EntryView>
    decreases es.len(),
{
    if es.len() == 0 {
        None
    } else if es[0].manifest.name@ == name {
        Some(entry_view(es[0]))
    } else {
        kit_named(es.drop_first(), name)
    }
}

/// What a scanned kit makes of the entry with its name: a new entry (its
/// health from whether it starts unhealthy) when there was none; the old
/// entry when the manifest is unchanged; otherwise the new manifest,
/// directory and command with the failures forgotten and no connection
/// (the count of unreported calls is kept).
pub open spec fn refresh_entry(
    old: Option<
        EntryView,
    >,
    f: FreshView,
) -> EntryView {
    match old {
        Some(e) => if e.0 == f.0 {
            e
        } else {
            (
                f.0,
                f.1,
                f.2,
                KitHealth {
                    failure_count: 0,
                    unhealthy: false,
                    last_failure_at: None,
                    unsent_calls: e.3.unsent_calls,
                },
                false,
            )
        },
        None => (
            f.0,
            f.1,
            f.2,
            KitHealth { failure_count: 0, unhealthy: f.3, last_failure_at: None, unsent_calls: 0 },
            false,
        ),
    }
}

/// Some scanned kit is named `name`.
pub open spec fn scanned(fs: Seq<FreshView>, name: Seq<char>) -> bool {
    exists|i: int| 0 <= i < fs.len() && #[trigger] fs[i].0.0.0 == name
}

/// The entry named `name` once the scanned kits `fs` were applied, in
/// order, to the entry `old` (see [`refresh_entry`]).
pub open spec fn refreshed_entry(old: Option<EntryView>, fs: Seq<FreshView>, name: Seq<char>) -> Option<EntryView>
    decreases fs.len(),
{
    if fs.len() == 0 {
        old
    } else {
        let before = refreshed_entry(old, fs.drop_last(), name);
        if fs.last().0.0.0 == name {
            Some(refresh_entry(before, fs.last()))
        } else {
            before
        }
    }
}

/// The entry named `name` after a refresh of `old` by the scan `fs`: none
/// unless the scan found that name.
pub open spec fn after_refresh(old: Seq<KitEntry>, fs: Seq<FreshView>, name: Seq<char>) -> Option<EntryView> {
    if scanned(fs, name) {
        refreshed_entry(kit_named(old, name), fs, name)
    } else {
        None
    }
}

proof fn lemma_named_none(es: Seq<KitEntry>, name: Seq<char>)
    requires
        !has_kit(es, name),
    ensures
        kit_named(es, name) is None,
    decreases es.len(),
{
    if es.len() > 0 {
        assert(es[0].manifest.name@ != name);
        assert(!has_kit(es.drop_first(), name)) by {
            if has_kit(es.drop_first(), name) {
                let k = choose|k: int| 0 <= k < es.drop_first().len() && #[trigger] es.drop_first()[k].manifest.name@ == name;
                assert(es[k + 1].manifest.name@ == name);
            }
        }
        lemma_named_none(es.drop_first(), name);
    }
}

proof fn lemma_named_at(es: Seq<KitEntry>, i: int)
    requires
        names_sorted(es),
        0 <= i < es.len(),
    ensures
        kit_named(es, es[i].manifest.name@) == Some(entry_view(es[i])),
    decreases i,
{
    if i > 0 {
        assert(text_less(es[0].manifest.name@, es[i].manifest.name@));
        lemma_text_less_irreflexive(es[i].manifest.name@);
        let rest = es.drop_first();
        assert(names_sorted(rest)) by {
            assert forall|a: int, b: int| 0 <= a < b < rest.len() implies text_less(
                #[trigger] rest[a].manifest.name@,
                #[trigger] rest[b].manifest.name@,
            ) by {
                assert(rest[a] == es[a + 1]);
                assert(rest[b] == es[b + 1]);
            }
        }
        assert(rest[i - 1] == es[i]);
        lemma_named_at(rest, i - 1);
    }
}

proof fn lemma_refreshed_unscanned(old: Option<EntryView>, fs: Seq<FreshView>, name: Seq<char>)
    requires
        !scanned(fs, name),
    ensures
        refreshed_entry(old, fs, name) == old,
    decreases fs.len(),
{
    if fs.len() > 0 {
        assert(!scanned(fs.drop_last(), name)) by {
            if scanned(fs.drop_last(), name) {
                let i = choose|i: int| 0 <= i < fs.drop_last().len() && #[trigger] fs.drop_last()[i].0.0.0 == name;
                assert(fs[i].0.0.0 == name);
            }
        }
        assert(fs.last().0.0.0 != name) by {
            if fs.last().0.0.0 == name {
                assert(fs[fs.len() - 1].0.0.0 == name);
            }
        }
        lemma_refreshed_unscanned(old, fs.drop_last(), name);
    }
}

/// The index of the entry named `name`, if any.
fn find_kit(es: &Vec<KitEntry>, name: &str) -> (r: Option<usize>)
    ensures
        match r {
            Some(i) => i < es@.len() && es@[i as int].manifest.name@ == name@,
            None => !has_kit(es@, name@),
        },
{
    let mut i: usize = 0;
    while i < es.len()
        invariant
            i <= es@.len(),
            forall|k: int| 0 <= k < i ==> es@[k].manifest.name@ != name@,
        decreases es.len() - i,
    {
        if same_text(es[i].manifest.name.as_str(), name) {
            return Some(i);
        }
        i = i + 1;
    }
    None
}

/// Where a kit named `name` goes: after every name that sorts before it.
fn insert_position(es: &Vec<KitEntry>, name: &str) -> (p: usize)
    requires
        names_sorted(es@),
        !has_kit(es@, name@),
    ensures
        p <= es@.len(),
        forall|k: int| 0 <= k < p ==> text_less(#[trigger] es@[k].manifest.name@, name@),
        forall|k: int| p <= k < es@.len() ==> text_less(name@, #[trigger] es@[k].manifest.name@),
{
    let nc = chars_of(name);
    let mut i: usize = 0;
    while i < es.len()
        invariant
            i <= es@.len(),
            nc@ == name@,
            names_sorted(es@),
            !has_kit(es@, name@),
            forall|k: int| 0 <= k < i ==> text_less(#[trigger] es@[k].manifest.name@, name@),
        decreases es.len() - i,
    {
        let ec = chars_of(es[i].manifest.name.as_str());
        if less_text(&nc, &ec) {
            proof {
                assert forall|k: int| i <= k < es@.len() implies text_less(name@, #[trigger] es@[k].manifest.name@) by {
                    if k > i {
                        assert(text_less(es@[i as int].manifest.name@, es@[k].manifest.name@));
                        lemma_text_less_transitive(name@, es@[i as int].manifest.name@, es@[k].manifest.name@);
                    }
                }
            }
            return i;
        }
        proof {
            assert(es@[i as int].manifest.name@ != name@);
            lemma_text_less_total(es@[i as int].manifest.name@, name@);
        }
        i = i + 1;
    }
    i
}

proof fn lemma_sorted_named(es: Seq<KitEntry>, n: Seq<char>)
    requires
        names_sorted(es),
    ensures
        has_kit(es, n) ==> exists|i: int|
            0 <= i < es.len() && es[i].manifest.name@ == n && kit_named(es, n) == Some(
                entry_view(#[trigger] es[i]),
            ),
        !has_kit(es, n) ==> kit_named(es, n) is None,
{
    if has_kit(es, n) {
        let i = choose|i: int| 0 <= i < es.len() && #[trigger] es[i].manifest.name@ == n;
        lemma_named_at(es, i);
    } else {
        lemma_named_none(es, n);
    }
}

proof fn lemma_insert_entry(es: Seq<KitEntry>, p: int, e: KitEntry)
    requires
        names_sorted(es),
        0 <= p <= es.len(),
        forall|k: int| 0 <= k < p ==> text_less(#[trigger] es[k].manifest.name@, e.manifest.name@),
        forall|k: int| p <= k < es.len() ==> text_less(e.manifest.name@, #[trigger] es[k].manifest.name@),
    ensures
        names_sorted(es.insert(p, e)),
        forall|n: Seq<char>|
            #[trigger] kit_named(es.insert(p, e), n) == if n == e.manifest.name@ {
                Some(entry_view(e))
            } else {
                kit_named(es, n)
            },
{
    let t = es.insert(p, e);
    assert forall|a: int, b: int| 0 <= a < b < t.len() implies text_less(
        #[trigger] t[a].manifest.name@,
        #[trigger] t[b].manifest.name@,
    ) by {
        if b < p {
            assert(t[a] == es[a] && t[b] == es[b]);
        } else if b == p {
            assert(t[a] == es[a]);
        } else if a < p {
            assert(t[a] == es[a] && t[b] == es[b - 1]);
            lemma_text_less_transitive(es[a].manifest.name@, e.manifest.name@, es[b - 1].manifest.name@);
        } else if a == p {
            assert(t[b] == es[b - 1]);
        } else {
            assert(t[a] == es[a - 1] && t[b] == es[b - 1]);
        }
    }
    assert forall|n: Seq<char>|
        #[trigger] kit_named(t, n) == if n == e.manifest.name@ {
            Some(entry_view(e))
        } else {
            kit_named(es, n)
        } by {
        assert(t[p] == e);
        if n == e.manifest.name@ {
            lemma_named_at(t, p);
        } else {
            lemma_sorted_named(es, n);
            lemma_sorted_named(t, n);
            if has_kit(es, n) {
                let i = choose|i: int|
                    0 <= i < es.len() && es[i].manifest.name@ == n && kit_named(es, n) == Some(
                        entry_view(#[trigger] es[i]),
                    );
                let j = if i < p {
                    i
                } else {
                    i + 1
                };
                assert(t[j] == es[i]);
                lemma_named_at(t, j);
            } else {
                assert(!has_kit(t, n)) by {
                    if has_kit(t, n) {
                        let j = choose|j: int| 0 <= j < t.len() && #[trigger] t[j].manifest.name@ == n;
                        if j < p {
                            assert(t[j] == es[j]);
                        } else if j > p {
                            assert(t[j] == es[j - 1]);
                        }
                    }
                }
            }
        }
    }
}

proof fn lemma_replace_entry(es: Seq<KitEntry>, i: int, e: KitEntry)
    requires
        names_sorted(es),
        0 <= i < es.len(),
        e.manifest.name@ == es[i].manifest.name@,
    ensures
        names_sorted(es.update(i, e)),
        forall|n: Seq<char>|
            #[trigger] kit_named(es.update(i, e), n) == if n == e.manifest.name@ {
                Some(entry_view(e))
            } else {
                kit_named(es, n)
            },
{
    let t = es.update(i, e);
    assert forall|a: int, b: int| 0 <= a < b < t.len() implies text_less(
        #[trigger] t[a].manifest.name@,
        #[trigger] t[b].manifest.name@,
    ) by {
        assert(t[a].manifest.name@ == es[a].manifest.name@);
        assert(t[b].manifest.name@ == es[b].manifest.name@);
    }
    assert forall|n: Seq<char>|
        #[trigger] kit_named(t, n) == if n == e.manifest.name@ {
            Some(entry_view(e))
        } else {
            kit_named(es, n)
        } by {
        if n == e.manifest.name@ {
            lemma_named_at(t, i);
        } else {
            lemma_sorted_named(es, n);
            lemma_sorted_named(t, n);
            if has_kit(es, n) {
                let j = choose|j: int|
                    0 <= j < es.len() && es[j].manifest.name@ == n && kit_named(es, n) == Some(
                        entry_view(#[trigger] es[j]),
                    );
                assert(t[j] == es[j]);
                lemma_named_at(t, j);
            } else {
                assert(!has_kit(t, n)) by {
                    if has_kit(t, n) {
                        let j = choose|j: int| 0 <= j < t.len() && #[trigger] t[j].manifest.name@ == n;
                        assert(t[j] == es[j]);
                    }
                }
            }
        }
    }
}

proof fn lemma_refreshed_some(old: Option<EntryView>, fs: Seq<FreshView>, name: Seq<char>)
    requires
        scanned(fs, name),
    ensures
        refreshed_entry(old, fs, name) is Some,
    decreases fs.len(),
{
    if fs.last().0.0.0 != name {
        let i = choose|i: int| 0 <= i < fs.len() && #[trigger] fs[i].0.0.0 == name;
        assert(i < fs.len() - 1);
        assert(fs.drop_last()[i].0.0.0 == name);
        lemma_refreshed_some(old, fs.drop_last(), name);
    }
}

impl KitRegistry {
    /// Entries have distinct names and are kept in name order.
    pub open spec fn wf(&self) -> bool {
        names_sorted(self.entries@)
    }

    /// An empty registry.
    pub fn new() -> (r: Self)
        ensures
            r.wf(),
            r.entries@.len() == 0,
    {
        KitRegistry { entries: Vec::new() }
    }

    /// Applies a scan of the kits directory: each scanned kit, in order,
    /// updates or adds the entry with its name (see [`refresh_entry`]); then
    /// the kits the scan did not find are dropped.
    pub fn refresh(&mut self, fresh: Vec<FreshKit>)
        requires
            old(self).wf(),
        ensures
            final(self).wf(),
            forall|name: Seq<char>|
                #[trigger] kit_named(final(self).entries@, name) == after_refresh(
                    old(self).entries@,
                    fresh_views(fresh@),
                    name,
                ),
    {
        let ghost old_es = self.entries@;
        let ghost all = fresh@;
        let ghost fv = fresh_views(fresh@);
        let mut names: Vec<String> = Vec::new();
        let mut i: usize = 0;
        while i < fresh.len()
            invariant
                i <= fresh@.len(),
                names@.len() == i,
                forall|k: int| 0 <= k < i ==> #[trigger] names@[k]@ == fresh@[k].manifest.name@,
            decreases fresh.len() - i,
        {
            names.push(fresh[i].manifest.name.clone());
            i = i + 1;
        }
        proof {
            assert(all.len() == fresh.len());
        }
        let mut rest = fresh;
        let mut done: usize = 0;
        proof {
            assert(all.skip(0) =~= all);
            assert forall|n: Seq<char>|
                #[trigger] kit_named(self.entries@, n) == refreshed_entry(kit_named(old_es, n), fv.take(0), n) by {
                assert(fv.take(0).len() == 0);
            }
        }
        while rest.len() > 0
            invariant
                names_sorted(self.entries@),
                done <= all.len(),
                all.len() <= usize::MAX,
                rest@ == all.skip(done as int),
                fv == fresh_views(all),
                forall|n: Seq<char>|
                    #[trigger] kit_named(self.entries@, n) == refreshed_entry(
                        kit_named(old_es, n),
                        fv.take(done as int),
                        n,
                    ),
            decreases rest.len(),
        {
            let ghost before = self.entries@;
            let f = rest.remove(0);
            proof {
                assert(f == all[done as int]);
                assert(rest@ =~= all.skip(done + 1));
                assert(fv.take(done + 1).drop_last() =~= fv.take(done as int));
                assert(fv.take(done + 1).last() == fresh_view(f));
            }
            let ghost fview = fresh_view(f);
            match find_kit(&self.entries, f.manifest.name.as_str()) {
                Some(at) => {
                    proof {
                        lemma_named_at(before, at as int);
                    }
                    if !same_manifest(&self.entries[at].manifest, &f.manifest) {
                        let unsent = self.entries[at].health.unsent_calls;
                        let e = KitEntry {
                            manifest: f.manifest,
                            dir: f.dir,
                            command: f.command,
                            health: KitHealth {
                                failure_count: 0,
                                unhealthy: false,
                                last_failure_at: None,
                                unsent_calls: unsent,
                            },
                            connected: false,
                        };
                        proof {
                            lemma_replace_entry(before, at as int, e);
                            assert(entry_view(e) == refresh_entry(Some(entry_view(before[at as int])), fview));
                        }
                        self.entries.remove(at);
                        self.entries.insert(at, e);
                        proof {
                            assert(self.entries@ =~= before.update(at as int, e));
                        }
                    }
                },
                None => {
                    let p = insert_position(&self.entries, f.manifest.name.as_str());
                    let pre = pre_unhealthy(&f.command, f.binary_found);
                    let e = KitEntry {
                        manifest: f.manifest,
                        dir: f.dir,
                        command: f.command,
                        health: KitHealth::new(pre),
                        connected: false,
                    };
                    proof {
                        lemma_named_none(before, fview.0.0.0);
                        lemma_insert_entry(before, p as int, e);
                        assert(entry_view(e) == refresh_entry(None, fview));
                    }
                    self.entries.insert(p, e);
                },
            }
            done = done + 1;
        }
        proof {
            assert(rest@.len() == 0);
            assert(done == all.len());
            assert(fv.take(done as int) =~= fv);
        }
        let ghost mid = self.entries@;
        proof {
            assert(mid.len() == self.entries.len());
        }
        let mut kept: Vec<KitEntry> = Vec::new();
        let ghost mut picks: Seq<int> = Seq::empty();
        let mut taken: usize = 0;
        while self.entries.len() > 0
            invariant
                names_sorted(mid),
                taken <= mid.len(),
                mid.len() <= usize::MAX,
                self.entries@ == mid.skip(taken as int),
                kept@.len() == picks.len(),
                forall|j: int| 0 <= j < picks.len() ==> 0 <= #[trigger] picks[j] < taken,
                forall|j: int| 0 <= j < picks.len() ==> kept@[j] == mid[#[trigger] picks[j]],
                forall|a: int, b: int| 0 <= a < b < picks.len() ==> #[trigger] picks[a] < #[trigger] picks[b],
                forall|k: int|
                    0 <= k < taken && in_list(names@, #[trigger] mid[k].manifest.name@) ==> exists|j: int|
                        0 <= j < picks.len() && picks[j] == k,
                forall|j: int| 0 <= j < kept@.len() ==> in_list(names@, #[trigger] kept@[j].manifest.name@),
            decreases self.entries.len(),
        {
            let e = self.entries.remove(0);
            proof {
                assert(e == mid[taken as int]);
                assert(self.entries@ =~= mid.skip(taken + 1));
            }
            let ghost old_picks = picks;
            let keep = list_contains(&names, &e.manifest.name);
            if keep {
                let ghost at = kept@.len();
                kept.push(e);
                proof {
                    picks = picks.push(taken as int);
                    assert(picks[at as int] == taken);
                }
            }
            proof {
                assert forall|k: int|
                    0 <= k < taken + 1 && in_list(names@, #[trigger] mid[k].manifest.name@) implies exists|j: int|
                        0 <= j < picks.len() && picks[j] == k by {
                    if k < taken {
                        let j0 = choose|j: int| 0 <= j < old_picks.len() && old_picks[j] == k;
                        assert(picks[j0] == k);
                    } else {
                        assert(keep);
                        assert(picks[picks.len() - 1] == k);
                    }
                }
            }
            taken = taken + 1;
        }
        proof {
            assert(taken == mid.len());
            assert forall|a: int, b: int| 0 <= a < b < kept@.len() implies text_less(
                #[trigger] kept@[a].manifest.name@,
                #[trigger] kept@[b].manifest.name@,
            ) by {
                assert(picks[a] < picks[b]);
                assert(kept@[a] == mid[picks[a]]);
                assert(kept@[b] == mid[picks[b]]);
            }
            assert forall|n: Seq<char>| in_list(names@, n) == scanned(fv, n) by {
                if in_list(names@, n) {
                    let k = choose|k: int| 0 <= k < names@.len() && names@[k]@ == n;
                    assert(fv[k].0.0.0 == names@[k]@);
                } else if scanned(fv, n) {
                    let k = choose|k: int| 0 <= k < fv.len() && #[trigger] fv[k].0.0.0 == n;
                    assert(names@[k]@ == n);
                }
            }
            assert forall|n: Seq<char>|
                #[trigger] kit_named(kept@, n) == after_refresh(old_es, fv, n) by {
                lemma_sorted_named(mid, n);
                lemma_sorted_named(kept@, n);
                if scanned(fv, n) {
                    lemma_refreshed_some(kit_named(old_es, n), fv, n);
                    let i = choose|i: int|
                        0 <= i < mid.len() && mid[i].manifest.name@ == n && kit_named(mid, n) == Some(
                            entry_view(#[trigger] mid[i]),
                        );
                    assert(in_list(names@, mid[i].manifest.name@));
                    let j = choose|j: int| 0 <= j < picks.len() && picks[j] == i;
                    assert(kept@[j] == mid[i]);
                    lemma_named_at(kept@, j);
                } else {
                    assert(!has_kit(kept@, n)) by {
                        if has_kit(kept@, n) {
                            let j = choose|j: int| 0 <= j < kept@.len() && #[trigger] kept@[j].manifest.name@ == n;
                            assert(in_list(names@, kept@[j].manifest.name@));
                        }
                    }
                }
            }
        }
        self.entries = kept;
    }
}

/// After a refresh the registry holds exactly the kits the scan found.
pub proof fn lemma_refresh_holds_scanned(old: Seq<KitEntry>, fs: Seq<FreshView>, name: Seq<char>)
    ensures
        after_refresh(old, fs, name) is Some <==> scanned(fs, name),
{
    if scanned(fs, name) {
        lemma_refreshed_some(kit_named(old, name), fs, name);
    }
}

/// A kit whose manifest the scan finds unchanged keeps its entry as it was:
/// its health, its failures and its connection.
pub proof fn lemma_unchanged_kit_kept(old: Seq<KitEntry>, fs: Seq<FreshView>, name: Seq<char>)
    requires
        kit_named(old, name) matches Some(e) && (forall|i: int|
            0 <= i < fs.len() && #[trigger] fs[i].0.0.0 == name ==> fs[i].0 == e.0),
    ensures
        scanned(fs, name) ==> after_refresh(old, fs, name) == kit_named(old, name),
{
    if let Some(e) = kit_named(old, name) {
        lemma_refreshed_unchanged(e, fs, name);
    }
}

proof fn lemma_refreshed_unchanged(e: EntryView, fs: Seq<FreshView>, name: Seq<char>)
    requires
        forall|i: int| 0 <= i < fs.len() && #[trigger] fs[i].0.0.0 == name ==> fs[i].0 == e.0,
    ensures
        refreshed_entry(Some(e), fs, name) == Some(e),
    decreases fs.len(),
{
    if fs.len() > 0 {
        assert forall|i: int| 0 <= i < fs.drop_last().len() && #[trigger] fs.drop_last()[i].0.0.0 == name implies fs.drop_last()[i].0 == e.0 by {
            assert(fs.drop_last()[i] == fs[i]);
        }
        lemma_refreshed_unchanged(e, fs.drop_last(), name);
        if fs.last().0.0.0 == name {
            assert(fs[fs.len() - 1].0 == e.0);
        }
    }
}

} // verus!
