//! What the commands share: reading the trees that they work on, and reading pathspecs.

use vstd::prelude::*;

use crate::console::{complained, fatal, fatal_line, Done, Io, Screen};
use crate::ignore::{glob, glob_match};
use crate::order::OrdMap;
use crate::repo::{
    commit_tree, head_files, head_tree, index_of, load_index, relative, relative_path, tree_at,
};
use crate::system::{is_inside, inside, resolve_against, resolved, thing_at, Machine, System};
use crate::text::{copy_text, join2, join3, opt_text, same, starts, starts_with, texts};
use crate::trees::{Files, Tree};
use crate::worktree::{collect_working_tree, working_tree};

verus! {

/// How a command ended.
pub open spec fn done(m: Machine, s: Screen, status: i32) -> Done {
    Done { m, s, status: status as int }
}

// ---------------------------------------------------------------------------
// Pathspecs
// ---------------------------------------------------------------------------

/// The path below the root that a pathspec names; empty for the root itself.
pub open spec fn pathspec_of(cwd: Seq<char>, root: Seq<char>, value: Seq<char>) -> Seq<char> {
    let path = resolved(cwd, value);
    match relative(root, path) {
        Some(r) => r,
        None => if inside(root, path) {
            ""@
        } else {
            value
        },
    }
}

/// The path below the root that a pathspec names. A path outside the repository is left as it
/// stands; it will match nothing.
pub fn pathspec(cwd: &str, root: &str, value: &str) -> (r: String)
    ensures
        r@ == pathspec_of(cwd@, root@, value@),
{
    let path = resolve_against(cwd, value);
    match relative_path(root, path.as_str()) {
        Some(r) => r,
        None => if is_inside(root, path.as_str()) {
            copy_text("")
        } else {
            copy_text(value)
        },
    }
}

/// The paths below the root that pathspecs name.
pub open spec fn pathspecs_of(cwd: Seq<char>, root: Seq<char>, values: Seq<Seq<char>>) -> Seq<
    Seq<char>,
> {
    values.map_values(|v: Seq<char>| pathspec_of(cwd, root, v))
}

/// The paths below the root that pathspecs name.
pub fn pathspecs(cwd: &str, root: &str, values: &[String]) -> (r: Vec<String>)
    ensures
        texts(r@) == pathspecs_of(cwd@, root@, texts(values@)),
{
    let mut out: Vec<String> = Vec::new();
    let mut i: usize = 0;
    while i < values.len()
        invariant
            i <= values.len(),
            out@.len() == i,
            forall|k: int|
                0 <= k < i ==> (#[trigger] out@[k])@ == pathspec_of(cwd@, root@, values@[k]@),
        decreases values.len() - i,
    {
        out.push(pathspec(cwd, root, values[i].as_str()));
        i += 1;
    }
    assert(texts(out@) =~= pathspecs_of(cwd@, root@, texts(values@)));
    out
}

/// Whether a path is `prefix` or lies below it.
pub open spec fn at_or_below(prefix: Seq<char>, path: Seq<char>) -> bool {
    path == prefix || starts(path, prefix + "/"@)
}

/// Whether a path is `prefix` or lies below it.
pub fn is_at_or_below(prefix: &str, path: &str) -> (r: bool)
    ensures
        r == at_or_below(prefix@, path@),
{
    same(path, prefix) || starts_with(path, join2(prefix, "/").as_str())
}

/// Whether one of `paths` covers a path; without any, every path is covered.
pub open spec fn covered(paths: Seq<Seq<char>>, path: Seq<char>) -> bool {
    paths.len() == 0 || exists|i: int|
        0 <= i < paths.len() && ((#[trigger] paths[i]).len() == 0 || at_or_below(paths[i], path))
}

/// Whether one of `paths` covers a path.
pub fn selected(paths: &[String], path: &str) -> (r: bool)
    ensures
        r == covered(texts(paths@), path@),
{
    if paths.len() == 0 {
        return true;
    }
    let ghost all = texts(paths@);
    let mut i: usize = 0;
    while i < paths.len()
        invariant
            i <= paths.len(),
            all == texts(paths@),
            forall|k: int|
                0 <= k < i ==> !((#[trigger] all[k]).len() == 0 || at_or_below(all[k], path@)),
        decreases paths.len() - i,
    {
        assert(all[i as int] == paths@[i as int]@);
        if paths[i].as_str().is_empty() || is_at_or_below(paths[i].as_str(), path) {
            return true;
        }
        i += 1;
    }
    false
}

/// Whether a path is what a pathspec names, lies below it, or matches it as a glob.
pub open spec fn pathspec_matches(spec_text: Seq<char>, path: Seq<char>) -> bool {
    at_or_below(spec_text, path) || glob(spec_text, path, 0, 0)
}

/// Whether a pathspec matches a path.
pub fn matches_pathspec(spec_text: &str, path: &str) -> (r: bool)
    ensures
        r == pathspec_matches(spec_text@, path@),
{
    is_at_or_below(spec_text, path) || glob_match(spec_text, path)
}

/// Whether some pathspec matches a path.
pub open spec fn some_matches(specs: Seq<Seq<char>>, path: Seq<char>) -> bool {
    exists|i: int| 0 <= i < specs.len() && pathspec_matches(#[trigger] specs[i], path)
}

/// Whether some pathspec matches a path.
pub fn any_matches(specs: &[String], path: &str) -> (r: bool)
    ensures
        r == some_matches(texts(specs@), path@),
{
    let ghost all = texts(specs@);
    let mut i: usize = 0;
    while i < specs.len()
        invariant
            i <= specs.len(),
            all == texts(specs@),
            forall|k: int| 0 <= k < i ==> !pathspec_matches(#[trigger] all[k], path@),
        decreases specs.len() - i,
    {
        assert(all[i as int] == specs@[i as int]@);
        if matches_pathspec(specs[i].as_str(), path) {
            return true;
        }
        i += 1;
    }
    false
}

/// Whether a path of a tree is `prefix` or lies below it.
pub open spec fn tracks(t: Files, prefix: Seq<char>) -> bool {
    exists|i: int| 0 <= i < t.len() && at_or_below(prefix, #[trigger] t[i].0)
}

/// Whether a path of a tree is `prefix` or lies below it.
pub fn is_tracked(tree: &Tree, prefix: &str) -> (r: bool)
    ensures
        r == tracks(tree@, prefix@),
{
    let ghost t = tree@;
    let mut i: usize = 0;
    while i < tree.len()
        invariant
            i <= t.len(),
            t == tree@,
            forall|k: int| 0 <= k < i ==> !at_or_below(prefix@, #[trigger] t[k].0),
        decreases t.len() - i,
    {
        if is_at_or_below(prefix, tree.key_at(i)) {
            return true;
        }
        i += 1;
    }
    false
}

/// Whether an operand names something in the working tree or in the index.
pub open spec fn path_named(m: Machine, root: Seq<char>, value: Seq<char>) -> bool {
    let path = resolved(m.cwd, value);
    thing_at(m.files, path) is Some || match relative(root, path) {
        None => true,
        Some(r) => match index_of(m, root) {
            Some(t) => tracks(t, r),
            None => false,
        },
    }
}

/// Whether an operand names something in the working tree or in the index. This tells a mistyped
/// revision from a path.
pub fn names_a_path(system: &System, root: &str, value: &str) -> (r: bool)
    ensures
        r == path_named(system@, root@, value@),
{
    let path = resolve_against(system.cwd().as_str(), value);
    if system.path_exists(path.as_str()) {
        return true;
    }
    match relative_path(root, path.as_str()) {
        None => true,
        Some(r) => match load_index(system, root) {
            Some(t) => is_tracked(&t, r.as_str()),
            None => false,
        },
    }
}

// ---------------------------------------------------------------------------
// Trees that have to be there
// ---------------------------------------------------------------------------

/// A tree that was asked for, or the status to stop with.
pub type Got = Result<Files, int>;

/// What a tree that was asked for says.
pub open spec fn got(r: Result<Tree, i32>) -> Got {
    match r {
        Ok(t) => Ok(t@),
        Err(e) => Err(e as int),
    }
}

/// The staged tree, or a fatal error where the index is corrupt.
pub open spec fn index_needed(m: Machine, s: Screen, root: Seq<char>) -> (Screen, Got) {
    match index_of(m, root) {
        Some(t) => (s, Ok(t)),
        None => (complained(s, fatal_line("index file corrupt"@)), Err(128)),
    }
}

/// The staged tree, or a fatal error where the index is corrupt. To a command that writes, a
/// corrupt index must not read as an empty one.
pub fn require_index(system: &System, root: &str, io: &mut Io) -> (r: Result<Tree, i32>)
    ensures
        (final(io)@, got(r)) == index_needed(system@, old(io)@, root@),
{
    match load_index(system, root) {
        Some(t) => Ok(t),
        None => Err(fatal(io, "index file corrupt")),
    }
}

/// The tree of a commit, or a fatal error that names the commit.
pub open spec fn tree_needed(m: Machine, s: Screen, root: Seq<char>, id: Seq<char>) -> (
    Screen,
    Got,
) {
    match tree_at(m, root, id) {
        Some(t) => (s, Ok(t)),
        None => (complained(s, "fatal: unable to read tree of commit "@ + id + "\n"@), Err(128)),
    }
}

/// The tree of a commit, or a fatal error that names the commit.
pub fn require_tree(system: &System, root: &str, commit: &str, io: &mut Io) -> (r: Result<
    Tree,
    i32,
>)
    ensures
        (final(io)@, got(r)) == tree_needed(system@, old(io)@, root@, commit@),
{
    match commit_tree(system, root, commit) {
        Some(t) => Ok(t),
        None => {
            io.print_err(
                join3("fatal: unable to read tree of commit ", commit, "\n").as_str(),
            );
            Err(128)
        },
    }
}

/// The tree of a commit that may not be there; empty where there is none.
pub open spec fn parent_needed(m: Machine, s: Screen, root: Seq<char>, id: Option<Seq<char>>) -> (
    Screen,
    Got,
) {
    match id {
        Some(id) => tree_needed(m, s, root, id),
        None => (s, Ok(seq![])),
    }
}

/// The tree of a commit that may not be there: empty where there is none, fatal where there is one
/// that cannot be read.
pub fn parent_tree(system: &System, root: &str, parent: &Option<String>, io: &mut Io) -> (r: Result<
    Tree,
    i32,
>)
    ensures
        (final(io)@, got(r)) == parent_needed(system@, old(io)@, root@, opt_text(*parent)),
{
    match parent {
        Some(id) => require_tree(system, root, id.as_str(), io),
        None => {
            let t: Tree = OrdMap::new();
            assert(t@ =~= seq![]);
            Ok(t)
        },
    }
}

/// The tree of a commit, or the empty tree.
pub open spec fn tree_or_empty(m: Machine, root: Seq<char>, id: Seq<char>) -> Files {
    match tree_at(m, root, id) {
        Some(t) => t,
        None => seq![],
    }
}

/// The tree of a commit, or the empty tree.
pub fn commit_tree_or_empty(system: &System, root: &str, id: &str) -> (r: Tree)
    ensures
        r@ == tree_or_empty(system@, root@, id@),
{
    match commit_tree(system, root, id) {
        Some(t) => t,
        None => {
            let t: Tree = OrdMap::new();
            assert(t@ =~= seq![]);
            t
        },
    }
}

/// The staged tree, or the empty tree.
pub open spec fn index_or_empty(m: Machine, root: Seq<char>) -> Files {
    match index_of(m, root) {
        Some(t) => t,
        None => seq![],
    }
}

/// The staged tree, or the empty tree.
pub fn load_index_or_empty(system: &System, root: &str) -> (r: Tree)
    ensures
        r@ == index_or_empty(system@, root@),
{
    match load_index(system, root) {
        Some(t) => t,
        None => {
            let t: Tree = OrdMap::new();
            assert(t@ =~= seq![]);
            t
        },
    }
}

// ---------------------------------------------------------------------------
// The three trees
// ---------------------------------------------------------------------------

/// HEAD, the index and the working tree, read once.
pub struct Snapshot {
    pub head: Tree,
    pub index: Tree,
    pub work: Tree,
}

/// What the three trees hold.
#[verifier::ext_equal]
pub struct Trio {
    pub head: Files,
    pub index: Files,
    pub work: Files,
}

impl View for Snapshot {
    type V = Trio;

    open spec fn view(&self) -> Trio {
        Trio { head: self.head@, index: self.index@, work: self.work@ }
    }
}

/// The three trees, or the status to stop with.
pub open spec fn trio_read(m: Machine, s: Screen, root: Seq<char>) -> (
    Machine,
    Screen,
    Result<Trio, int>,
) {
    match index_needed(m, s, root) {
        (t, Err(e)) => (m, t, Err(e)),
        (t, Ok(index)) => match working_tree(m, root) {
            (n, Err(e)) => (n, t, Err(e)),
            (n, Ok(work)) => (n, t, Ok(Trio { head: head_files(m, root), index, work })),
        },
    }
}

/// What the three trees that were asked for say.
pub open spec fn got_trio(r: Result<Snapshot, i32>) -> Result<Trio, int> {
    match r {
        Ok(t) => Ok(t@),
        Err(e) => Err(e as int),
    }
}

/// HEAD, the index and the working tree.
pub fn snapshot(system: &mut System, root: &str, io: &mut Io) -> (r: Result<Snapshot, i32>)
    ensures
        (final(system)@, final(io)@, got_trio(r)) == trio_read(old(system)@, old(io)@, root@),
{
    let head = head_tree(system, root);
    let index = match require_index(system, root, io) {
        Ok(t) => t,
        Err(e) => return Err(e),
    };
    let work = match collect_working_tree(system, root) {
        Ok(t) => t,
        Err(e) => return Err(e),
    };
    Ok(Snapshot { head, index, work })
}

/// Why a file cannot be read.
pub open spec fn unreadable(m: Machine, path: Seq<char>) -> Seq<char> {
    crate::system::refusal_text(
        if crate::system::dir_at(m.files, path) {
            crate::system::Refusal::IsADirectory(path)
        } else {
            crate::system::Refusal::NotFound(path)
        },
    )
}

/// Why a file cannot be read.
pub fn describe_unreadable(system: &System, path: &str) -> (r: String)
    ensures
        r@ == unreadable(system@, path@),
{
    if system.is_dir(path) {
        crate::system::FileError::IsADirectory(copy_text(path)).message()
    } else {
        crate::system::FileError::NotFound(copy_text(path)).message()
    }
}

} // verus!
