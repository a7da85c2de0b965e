//! Workspace paths of the file tools: a requested path resolved against the
//! workspace root with `.` and `..` applied logically (the file need not
//! exist), and refused when it climbs above the root or leaves the workspace.
//!
//! Paths follow the Unix grammar: `/` separates components, a leading `/`
//! roots the path, empty and `.` components vanish, `..` climbs one level.
use vstd::prelude::*;
use crate::text::{chars_of, push_char, views};

verus! {

/// The components a path piece contributes: none for an empty piece or `.`.
pub open spec fn keep_piece(piece: Seq<char>) -> Seq<Seq<char>> {
    if piece.len() == 0 || piece == "."@ {
        Seq::empty()
    } else {
        seq![piece]
    }
}

/// The components of `cur` (a piece being read) followed by `rest`.
pub open spec fn components_from(cur: Seq<char>, rest: Seq<char>) -> Seq<Seq<char>>
    decreases rest.len(),
{
    if rest.len() == 0 {
        keep_piece(cur)
    } else if rest[0] == '/' {
        keep_piece(cur) + components_from(Seq::empty(), rest.drop_first())
    } else {
        components_from(cur.push(rest[0]), rest.drop_first())
    }
}

/// The components of path `p` (`Path::components` without the root): the
/// `/`-separated pieces that are neither empty nor `.`.
pub open spec fn path_components(p: Seq<char>) -> Seq<Seq<char>> {
    components_from(Seq::empty(), p)
}

/// `p` starts at the root.
pub open spec fn is_rooted(p: Seq<char>) -> bool {
    p.len() > 0 && p[0] == '/'
}

/// `comps` applied to the directory `stack`: a `..` drops the last name, the
/// others are appended; `None` when a `..` finds nothing left to drop.
pub open spec fn normalize(stack: Seq<Seq<char>>, comps: Seq<Seq<char>>) -> Option<Seq<Seq<char>>>
    decreases comps.len(),
{
    if comps.len() == 0 {
        Some(stack)
    } else if comps[0] == ".."@ {
        if stack.len() == 0 {
            None
        } else {
            normalize(stack.drop_last(), comps.drop_first())
        }
    } else {
        normalize(stack.push(comps[0]), comps.drop_first())
    }
}

/// `names` joined by `/`.
pub open spec fn join_names(names: Seq<Seq<char>>) -> Seq<char>
    decreases names.len(),
{
    if names.len() == 0 {
        Seq::empty()
    } else if names.len() == 1 {
        names[0]
    } else {
        join_names(names.drop_last()) + "/"@ + names.last()
    }
}

/// The text of a path with the given root flag and components.
pub open spec fn render_path(rooted: bool, names: Seq<Seq<char>>) -> Seq<char> {
    if rooted {
        "/"@ + join_names(names)
    } else {
        join_names(names)
    }
}

/// Whether the path `(rooted, names)` lies under `root`: same rooting, and
/// the components of `root` are a prefix of `names` (`Path::starts_with`).
pub open spec fn under_root(rooted: bool, names: Seq<Seq<char>>, root: Seq<char>) -> bool {
    let rc = path_components(root);
    &&& rooted == is_rooted(root)
    &&& rc.len() <= names.len()
    &&& names.take(rc.len() as int) == rc
}

/// The root flag and components of the requested path before `..` is
/// applied: the path itself when absolute, else the root followed by it.
pub open spec fn full_path(root: Seq<char>, path: Seq<char>) -> (bool, Seq<Seq<char>>) {
    if is_rooted(path) {
        (true, path_components(path))
    } else {
        (is_rooted(root), path_components(root) + path_components(path))
    }
}

/// Why a path was refused.
#[derive(Clone, Debug)]
pub enum PathError {
    /// A `..` climbs above the top of the path.
    Traversal { path: String },
    /// The resolved path is not inside the workspace.
    OutsideWorkspace { path: String, resolved: String },
}

impl PathError {
    /// The message shown to the caller.
    pub fn message(&self) -> (r: String)
        ensures
            self matches PathError::Traversal { path } ==> r@
                == "Path traversal: cannot go above root: "@ + path@,
            self matches PathError::OutsideWorkspace { path, resolved } ==> r@
                == "Path outside workspace: "@ + path@ + " (resolved to "@ + resolved@ + ")"@,
    {
        match self {
            PathError::Traversal { path } => {
                let mut m = String::from_str("Path traversal: cannot go above root: ");
                m.append(path.as_str());
                m
            },
            PathError::OutsideWorkspace { path, resolved } => {
                let mut m = String::from_str("Path outside workspace: ");
                m.append(path.as_str());
                m.append(" (resolved to ");
                m.append(resolved.as_str());
                m.append(")");
                m
            },
        }
    }
}

proof fn lemma_components_step(cur: Seq<char>, p: Seq<char>, i: int)
    requires
        0 <= i < p.len(),
    ensures
        p[i] == '/' ==> components_from(cur, p.skip(i)) == keep_piece(cur) + components_from(
            Seq::empty(),
            p.skip(i + 1),
        ),
        p[i] != '/' ==> components_from(cur, p.skip(i)) == components_from(
            cur.push(p[i]),
            p.skip(i + 1),
        ),
{
    assert(p.skip(i).drop_first() =~= p.skip(i + 1));
    assert(p.skip(i)[0] == p[i]);
}

/// Appends the component that `piece` contributes, if any, to `out`.
fn push_piece(out: &mut Vec<String>, piece: &Vec<char>)
    ensures
        views(final(out)@) == views(old(out)@) + keep_piece(piece@),
{
    let dot = piece.len() == 1 && piece[0] == '.';
    proof {
        reveal_strlit(".");
        if piece@ == "."@ {
            assert(piece@[0] == '.');
        }
        if dot {
            assert(piece@ =~= "."@);
        }
    }
    let ghost before = out@;
    if piece.len() > 0 && !dot {
        out.push(crate::text::string_of(piece));
        assert(views(out@) =~= views(before) + seq![piece@]);
    } else {
        assert(views(out@) =~= views(before) + Seq::<Seq<char>>::empty());
    }
}

/// The components of `p` (see [`path_components`]).
pub fn components_of(p: &str) -> (r: Vec<String>)
    ensures
        views(r@) == path_components(p@),
{
    let cs = chars_of(p);
    let mut out: Vec<String> = Vec::new();
    let mut cur: Vec<char> = Vec::new();
    let mut i: usize = 0;
    proof {
        assert(cs@.skip(0) =~= cs@);
        assert(views(out@) =~= Seq::<Seq<char>>::empty());
    }
    while i < cs.len()
        invariant
            i <= cs.len(),
            cs@ == p@,
            path_components(p@) == views(out@) + components_from(cur@, cs@.skip(i as int)),
        decreases cs.len() - i,
    {
        proof {
            lemma_components_step(cur@, cs@, i as int);
        }
        if cs[i] == '/' {
            let ghost before = views(out@);
            push_piece(&mut out, &cur);
            proof {
                assert(before + (keep_piece(cur@) + components_from(
                    Seq::empty(),
                    cs@.skip(i + 1),
                )) =~= views(out@) + components_from(Seq::empty(), cs@.skip(i + 1)));
            }
            cur = Vec::new();
        } else {
            cur.push(cs[i]);
        }
        i += 1;
    }
    let ghost before = views(out@);
    push_piece(&mut out, &cur);
    proof {
        assert(cs@.skip(i as int).len() == 0);
    }
    out
}

/// The path `(rooted, names)` as text.
pub fn render(rooted: bool, names: &Vec<String>) -> (r: String)
    ensures
        r@ == render_path(rooted, views(names@)),
{
    let mut body = String::new();
    let mut i: usize = 0;
    while i < names.len()
        invariant
            i <= names.len(),
            body@ == join_names(views(names@).take(i as int)),
        decreases names.len() - i,
    {
        let ghost prev = views(names@).take(i as int);
        assert(views(names@).take(i + 1).drop_last() =~= prev);
        if i > 0 {
            body.append("/");
        }
        body.append(names[i].as_str());
        proof {
            assert(views(names@).take(i + 1).last() == names@[i as int]@);
            if i == 0 {
                assert(body@ =~= names@[0]@);
            }
        }
        i += 1;
    }
    assert(views(names@).take(names.len() as int) =~= views(names@));
    if rooted {
        let mut out = String::from_str("/");
        out.append(body.as_str());
        out
    } else {
        body
    }
}

/// Whether `s` is the text `..`.
fn is_parent_dir(s: &String) -> (r: bool)
    ensures
        r == (s@ == ".."@),
{
    let cs = chars_of(s.as_str());
    proof {
        reveal_strlit("..");
    }
    let r = cs.len() == 2 && cs[0] == '.' && cs[1] == '.';
    proof {
        if r {
            assert(cs@ =~= ".."@);
        }
        if s@ == ".."@ {
            assert(cs@[0] == '.' && cs@[1] == '.');
        }
    }
    r
}

proof fn lemma_normalize_step(stack: Seq<Seq<char>>, comps: Seq<Seq<char>>, i: int)
    requires
        0 <= i < comps.len(),
    ensures
        normalize(stack, comps.skip(i)) == if comps[i] == ".."@ {
            if stack.len() == 0 {
                None
            } else {
                normalize(stack.drop_last(), comps.skip(i + 1))
            }
        } else {
            normalize(stack.push(comps[i]), comps.skip(i + 1))
        },
{
    assert(comps.skip(i).drop_first() =~= comps.skip(i + 1));
    assert(comps.skip(i)[0] == comps[i]);
}

/// `comps` applied to an empty directory stack (see [`normalize`]).
pub fn normalize_components(comps: &Vec<String>) -> (r: Option<Vec<String>>)
    ensures
        match normalize(Seq::empty(), views(comps@)) {
            Some(n) => r matches Some(v) && views(v@) == n,
            None => r is None,
        },
{
    let mut stack: Vec<String> = Vec::new();
    let mut i: usize = 0;
    proof {
        assert(views(comps@).skip(0) =~= views(comps@));
        assert(views(stack@) =~= Seq::<Seq<char>>::empty());
    }
    while i < comps.len()
        invariant
            i <= comps.len(),
            normalize(Seq::empty(), views(comps@)) == normalize(
                views(stack@),
                views(comps@).skip(i as int),
            ),
        decreases comps.len() - i,
    {
        proof {
            lemma_normalize_step(views(stack@), views(comps@), i as int);
            assert(views(comps@)[i as int] == comps@[i as int]@);
        }
        if is_parent_dir(&comps[i]) {
            if stack.len() == 0 {
                return None;
            }
            let ghost before = stack@;
            stack.pop();
            assert(views(stack@) =~= views(before).drop_last());
        } else {
            let ghost before = stack@;
            stack.push(comps[i].clone());
            assert(views(stack@) =~= views(before).push(comps@[i as int]@));
        }
        i += 1;
    }
    proof {
        assert(views(comps@).skip(i as int).len() == 0);
    }
    Some(stack)
}

/// Whether `(rooted, names)` lies under `root` (see [`under_root`]).
pub fn is_under_root(rooted: bool, names: &Vec<String>, root: &str) -> (r: bool)
    ensures
        r == under_root(rooted, views(names@), root@),
{
    let rc = components_of(root);
    let rr = {
        let cs = chars_of(root);
        cs.len() > 0 && cs[0] == '/'
    };
    if rooted != rr || rc.len() > names.len() {
        return false;
    }
    let mut i: usize = 0;
    while i < rc.len()
        invariant
            i <= rc.len() <= names.len(),
            views(rc@) == path_components(root@),
            forall|k: int| 0 <= k < i ==> names@[k]@ == rc@[k]@,
        decreases rc.len() - i,
    {
        if !(names[i] == rc[i]) {
            proof {
                assert(views(names@).take(rc.len() as int)[i as int] == names@[i as int]@);
                assert(views(rc@)[i as int] == rc@[i as int]@);
            }
            return false;
        }
        i += 1;
    }
    assert(views(names@).take(rc.len() as int) =~= views(rc@));
    true
}

/// `path` relative to `root` when it lies under it (`Path::strip_prefix`):
/// the components after the root's, joined by `/`; `None` otherwise.
pub open spec fn relative_to(path: Seq<char>, root: Seq<char>) -> Option<Seq<char>> {
    let names = path_components(path);
    if under_root(is_rooted(path), names, root) {
        Some(join_names(names.skip(path_components(root).len() as int)))
    } else {
        None
    }
}

/// `path` relative to `root` (see [`relative_to`]).
pub fn relative_path(path: &str, root: &str) -> (r: Option<String>)
    ensures
        match relative_to(path@, root@) {
            Some(t) => r matches Some(s) && s@ == t,
            None => r is None,
        },
{
    let names = components_of(path);
    let cs = chars_of(path);
    let rooted = cs.len() > 0 && cs[0] == '/';
    if !is_under_root(rooted, &names, root) {
        return None;
    }
    let skip = components_of(root).len();
    let mut rest: Vec<String> = Vec::new();
    let mut i: usize = skip;
    proof {
        assert(views(rest@) =~= views(names@).subrange(skip as int, skip as int));
    }
    while i < names.len()
        invariant
            skip <= i <= names@.len(),
            views(rest@) == views(names@).subrange(skip as int, i as int),
        decreases names.len() - i,
    {
        let ghost before = views(rest@);
        rest.push(names[i].clone());
        proof {
            assert(views(rest@) =~= before.push(names@[i as int]@));
            assert(views(names@).subrange(skip as int, i + 1) =~= views(names@).subrange(skip as int, i as int).push(
                names@[i as int]@,
            ));
        }
        i = i + 1;
    }
    assert(views(names@).subrange(skip as int, names@.len() as int) =~= views(names@).skip(skip as int));
    Some(render(false, &rest))
}

/// What resolving `path` against the workspace `root` gives: the normalized
/// path's text, or why it was refused.
pub open spec fn logical_resolution(root: Seq<char>, path: Seq<char>) -> Result<
    Seq<char>,
    Option<Seq<char>>,
> {
    let (rooted, comps) = full_path(root, path);
    match normalize(Seq::empty(), comps) {
        None => Err(None),
        Some(names) => if under_root(rooted, names, root) {
            Ok(render_path(rooted, names))
        } else {
            Err(Some(render_path(rooted, names)))
        },
    }
}

/// Resolve a path relative to workspace root. Prevent logical `..` traversal only.
pub fn resolve_path_logical(root: &str, path_str: &str) -> (r: Result<String, PathError>)
    ensures
        match logical_resolution(root@, path_str@) {
            Ok(p) => r matches Ok(s) && s@ == p,
            Err(None) => r matches Err(PathError::Traversal { path }) && path@ == path_str@,
            Err(Some(resolved)) => r matches Err(PathError::OutsideWorkspace { path, resolved: res })
                && path@ == path_str@ && res@ == resolved,
        },
{
    let pc = chars_of(path_str);
    let path_rooted = pc.len() > 0 && pc[0] == '/';
    let rc = chars_of(root);
    let root_rooted = rc.len() > 0 && rc[0] == '/';
    let mut comps = components_of(path_str);
    let rooted = if path_rooted {
        true
    } else {
        let mut all = components_of(root);
        let ghost a = views(all@);
        let ghost b = views(comps@);
        all.append(&mut comps);
        assert(views(all@) =~= a + b);
        comps = all;
        root_rooted
    };
    assert(full_path(root@, path_str@) == (rooted, views(comps@)));
    match normalize_components(&comps) {
        None => Err(PathError::Traversal { path: path_str.to_owned() }),
        Some(names) => {
            let text = render(rooted, &names);
            if is_under_root(rooted, &names, root) {
                Ok(text)
            } else {
                Err(PathError::OutsideWorkspace { path: path_str.to_owned(), resolved: text })
            }
        },
    }
}


/// No component of `names` is `..`.
pub open spec fn no_parent_steps(names: Seq<Seq<char>>) -> bool {
    forall|i: int| 0 <= i < names.len() ==> names[i] != ".."@
}

proof fn lemma_normalize_no_parent_steps(stack: Seq<Seq<char>>, comps: Seq<Seq<char>>)
    requires
        no_parent_steps(stack),
    ensures
        normalize(stack, comps) matches Some(names) ==> no_parent_steps(names),
    decreases comps.len(),
{
    if comps.len() > 0 {
        if comps[0] == ".."@ {
            if stack.len() > 0 {
                lemma_normalize_no_parent_steps(stack.drop_last(), comps.drop_first());
            }
        } else {
            let next = stack.push(comps[0]);
            assert forall|i: int| 0 <= i < next.len() implies next[i] != ".."@ by {
                if i < stack.len() {
                    assert(next[i] == stack[i]);
                }
            }
            lemma_normalize_no_parent_steps(next, comps.drop_first());
        }
    }
}

/// A path that resolves lies in the workspace: it is written from components
/// that start with the workspace root's and that hold no `..`.
pub proof fn lemma_resolution_stays_in_workspace(root: Seq<char>, path: Seq<char>)
    ensures
        logical_resolution(root, path) matches Ok(p) ==> exists|names: Seq<Seq<char>>|
            #![trigger render_path(is_rooted(root), names)]
            p == render_path(is_rooted(root), names) && under_root(is_rooted(root), names, root)
                && no_parent_steps(names),
{
    let (rooted, comps) = full_path(root, path);
    lemma_normalize_no_parent_steps(Seq::empty(), comps);
    if let Some(names) = normalize(Seq::empty(), comps) {
        if under_root(rooted, names, root) {
            assert(rooted == is_rooted(root));
            assert(render_path(is_rooted(root), names) == render_path(rooted, names));
        }
    }
}

} // verus!
