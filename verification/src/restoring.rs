//! Putting paths back: `restore`, `reset`, and taking one side of a conflict.

use vstd::prelude::*;
use vstd::utf8::encode_utf8;

use crate::common::{
    done, got, index_needed, names_a_path, path_named, pathspec, pathspec_of, require_index, require_tree,
    tree_needed,
};
use crate::console::{
    ambiguous, ambiguous_argument, cannot_write, complained, failed, fatal, misused, no_repo, objected, printed,
    repo_error, usage, write_message, Complaint, Done, Io, Objection, Screen,
};
use crate::flags::{in_range, next_word, Arg, Flags, Pass, Word};
use crate::history::Names;
use crate::names::{among, key_list, kept, overlaid, overlay, same_entry, tree_among_names};
use crate::numbers::{decimal, format_usize};
use crate::objects::{short, short_id};
use crate::order::{
    ascending, bind, keys_of, lemma_bind_ascending, lemma_lookup_bind, lemma_lookup_last, lemma_lookup_unbind,
    lemma_other_key_stays, lemma_unbind_ascending, lookup, unbind, Duplicate, OrdMap,
};
use crate::records::subject_of;
use crate::repo::{
    blob_of, commit_of, find_repo_root, git_file, head_files, head_tree, head_updated, index_of, index_stored,
    load_commit,
    orig_head_recorded, read_blob, record_orig_head, repo_root, store_index, update_head, write_vfs, written,
};
use crate::revisions::{resolve_revision, revision};
use crate::stages::{
    cleared, conflicts_of, load_stages, resolve, resolved_paths, stages_text, without_paths, Conflicts, Sides,
    Stages, Unmerged,
};
use crate::staging::{chosen, selected_paths};
use crate::status::{frame_all, framed};
use crate::storage::{lemma_git_files_differ, lemma_index_read_back, lemma_written};
use crate::syntax::{flags_for, pass_for, read_words, words_read, Syntax, Want};
use crate::system::{below, path_join, Machine, Refusal, System};
use crate::text::{
    copy_opt, copy_text, join2, join3, join4, join5, lemma_texts_push, opt_text, same, texts,
};
use crate::trees::{storable, tree_bytes, Files, Tree};
use crate::worktree::{collect_working_tree, message_result, replace_work_tree, tree_written, working_tree};

verus! {

// ---------------------------------------------------------------------------
// One side of a conflict
// ---------------------------------------------------------------------------

/// The recorded content of one side.
pub open spec fn side_hash(u: Sides, theirs: bool) -> Option<Seq<char>> {
    if theirs {
        u.theirs
    } else {
        u.ours
    }
}

/// The paths that operands name with the content of one side, or the operand that has none.
pub open spec fn sides_chosen(
    cwd: Seq<char>,
    root: Seq<char>,
    c: Conflicts,
    theirs: bool,
    named: Seq<Seq<char>>,
) -> Result<Seq<(Seq<char>, Seq<char>)>, Seq<char>>
    decreases named.len(),
{
    if named.len() == 0 {
        Ok(seq![])
    } else {
        match sides_chosen(cwd, root, c, theirs, named.drop_last()) {
            Err(e) => Err(e),
            Ok(v) => {
                let path = pathspec_of(cwd, root, named.last());
                match lookup(c, path) {
                    None => Err(named.last()),
                    Some(u) => match side_hash(u, theirs) {
                        None => Err(named.last()),
                        Some(h) => Ok(v.push((path, h))),
                    },
                }
            },
        }
    }
}

/// Writing the chosen contents from `i` on, or the path that could not be written and why.
pub open spec fn sides_written(
    m: Machine,
    root: Seq<char>,
    v: Seq<(Seq<char>, Seq<char>)>,
    i: int,
) -> (Machine, Result<(), Seq<char>>)
    decreases v.len() - i,
{
    if i < 0 || i >= v.len() {
        (m, Ok(()))
    } else {
        match blob_of(m, root, v[i].1) {
            None => (m, Err("error: missing blob for '"@ + v[i].0 + "'\n"@)),
            Some(data) => match written(m, below(root, v[i].0), data) {
                (n, Ok(())) => sides_written(n, root, v, i + 1),
                (n, Err(_)) => (n, Err("error: cannot write '"@ + v[i].0 + "'\n"@)),
            },
        }
    }
}

/// How many paths were updated.
pub open spec fn updated_text(count: nat) -> Seq<char> {
    "Updated "@ + decimal(count) + (if count == 1 {
        " path"@
    } else {
        " paths"@
    }) + " from the index\n"@
}

/// Taking one side of a conflict for the named paths.
pub open spec fn side_taken(
    m: Machine,
    s: Screen,
    root: Seq<char>,
    theirs: bool,
    named: Seq<Seq<char>>,
) -> Done {
    if named.len() == 0 {
        misused(m, s, "usage: git checkout --ours|--theirs PATH..."@)
    } else {
        match sides_chosen(m.cwd, root, conflicts_of(m, root), theirs, named) {
            Err(operand) => Done {
                m,
                s: complained(
                    s,
                    "error: path '"@ + operand + "' does not have their version\n"@,
                ),
                status: 1,
            },
            Ok(v) => match sides_written(m, root, v, 0) {
                (n, Err(e)) => Done { m: n, s: complained(s, e), status: 1 },
                (n, Ok(())) => Done { m: n, s: printed(s, updated_text(v.len())), status: 0 },
            },
        }
    }
}

fn side_of(u: &Unmerged, theirs: bool) -> (r: Option<String>)
    ensures
        opt_text(r) == side_hash(u@, theirs),
{
    if theirs {
        copy_opt(&u.theirs)
    } else {
        copy_opt(&u.ours)
    }
}

/// What chosen contents say.
pub open spec fn chosen_sides(r: Result<Vec<(String, String)>, String>) -> Result<
    Seq<(Seq<char>, Seq<char>)>,
    Seq<char>,
> {
    match r {
        Ok(v) => Ok(crate::worktree::pairs(v@)),
        Err(e) => Err(e@),
    }
}

proof fn lemma_side_refused(
    cwd: Seq<char>,
    root: Seq<char>,
    c: Conflicts,
    theirs: bool,
    named: Seq<Seq<char>>,
    n: int,
)
    requires
        0 <= n <= named.len(),
        sides_chosen(cwd, root, c, theirs, named.take(n)) is Err,
    ensures
        sides_chosen(cwd, root, c, theirs, named) == sides_chosen(
            cwd,
            root,
            c,
            theirs,
            named.take(n),
        ),
    decreases named.len() - n,
{
    if n < named.len() {
        assert(named.take(n + 1).drop_last() =~= named.take(n));
        lemma_side_refused(cwd, root, c, theirs, named, n + 1);
    } else {
        assert(named.take(n) =~= named);
    }
}

fn choose_sides(cwd: &str, root: &str, stages: &Stages, theirs: bool, named: &[String]) -> (r: Result<
    Vec<(String, String)>,
    String,
>)
    ensures
        chosen_sides(r) == sides_chosen(cwd@, root@, stages@, theirs, texts(named@)),
{
    let ghost all = texts(named@);
    let mut out: Vec<(String, String)> = Vec::new();
    let mut i: usize = 0;
    assert(crate::worktree::pairs(out@) =~= seq![]);
    assert(all.take(0) =~= seq![]);
    while i < named.len()
        invariant
            i <= named.len(),
            all == texts(named@),
            sides_chosen(cwd@, root@, stages@, theirs, all.take(i as int)) == Ok::<
                Seq<(Seq<char>, Seq<char>)>,
                Seq<char>,
            >(crate::worktree::pairs(out@)),
        decreases named.len() - i,
    {
        assert(all.take(i + 1).drop_last() =~= all.take(i as int));
        assert(all.take(i + 1).last() == named@[i as int]@);
        let path = pathspec(cwd, root, named[i].as_str());
        let found = match stages.get(path.as_str()) {
            Some(u) => side_of(u, theirs),
            None => None,
        };
        let hash = match found {
            Some(h) => h,
            None => {
                proof {
                    lemma_side_refused(cwd@, root@, stages@, theirs, all, i + 1);
                }
                return Err(copy_text(named[i].as_str()));
            },
        };
        let ghost was = crate::worktree::pairs(out@);
        let e = (path, hash);
        out.push(e);
        assert(crate::worktree::pairs(out@) =~= was.push((e.0@, e.1@)));
        i += 1;
    }
    assert(all.take(i as int) =~= all);
    Ok(out)
}

fn write_sides(system: &mut System, root: &str, v: &[(String, String)]) -> (r: Result<(), String>)
    ensures
        (final(system)@, message_result(r)) == sides_written(
            old(system)@,
            root@,
            crate::worktree::pairs(v@),
            0,
        ),
{
    let ghost all = crate::worktree::pairs(v@);
    let ghost goal = sides_written(system@, root@, all, 0);
    let mut i: usize = 0;
    while i < v.len()
        invariant
            i <= v.len(),
            all == crate::worktree::pairs(v@),
            goal == sides_written(old(system)@, root@, all, 0),
            goal == sides_written(system@, root@, all, i as int),
        decreases v.len() - i,
    {
        assert(all[i as int] == (v@[i as int].0@, v@[i as int].1@));
        let path = v[i].0.as_str();
        let data = match read_blob(system, root, v[i].1.as_str()) {
            Some(d) => d,
            None => return Err(join3("error: missing blob for '", path, "'\n")),
        };
        match write_vfs(system, path_join(root, path).as_str(), data.as_slice()) {
            Ok(()) => {},
            Err(_) => return Err(join3("error: cannot write '", path, "'\n")),
        }
        i += 1;
    }
    Ok(())
}

/// Takes the recorded content of one side for the named paths. They stay unmerged until they are
/// staged.
pub fn checkout_side(system: &mut System, root: &str, theirs: bool, named: &[String], io: &mut Io) -> (r:
    i32)
    ensures
        done(final(system)@, final(io)@, r) == side_taken(
            old(system)@,
            old(io)@,
            root@,
            theirs,
            texts(named@),
        ),
{
    if named.len() == 0 {
        return usage(io, "usage: git checkout --ours|--theirs PATH...");
    }
    let stages = load_stages(system, root);
    let v = match choose_sides(system.cwd().as_str(), root, &stages, theirs, named) {
        Ok(v) => v,
        Err(operand) => {
            io.print_err(
                join3("error: path '", operand.as_str(), "' does not have their version\n").as_str(),
            );
            return 1;
        },
    };
    match write_sides(system, root, v.as_slice()) {
        Ok(()) => {},
        Err(e) => {
            io.print_err(e.as_str());
            return 1;
        },
    }
    let count: usize = v.len();
    assert(crate::worktree::pairs(v@).len() == v@.len());
    io.print(
        join4(
            "Updated ",
            format_usize(count).as_str(),
            if count == 1 {
                " path"
            } else {
                " paths"
            },
            " from the index\n",
        ).as_str(),
    );
    0
}

// ---------------------------------------------------------------------------
// Restoring paths
// ---------------------------------------------------------------------------

/// The tree with the named paths as another tree holds them.
pub open spec fn taken_from(t: Files, source: Files, names: Names) -> Files
    decreases names.len(),
{
    if names.len() == 0 {
        t
    } else {
        let head = taken_from(t, source, names.drop_last());
        match lookup(source, names.last().0) {
            Some(r) => bind(head, names.last().0, r),
            None => unbind(head, names.last().0),
        }
    }
}

/// Only the named paths are restored: each is then as the other tree holds it, and every other path is
/// as it was.
pub proof fn lemma_only_named_restored(t: Files, source: Files, names: Names, path: Seq<char>)
    requires
        ascending(t),
        ascending(names),
    ensures
        ascending(taken_from(t, source, names)),
        lookup(taken_from(t, source, names), path) == (if lookup(names, path) is Some {
            lookup(source, path)
        } else {
            lookup(t, path)
        }),
    decreases names.len(),
{
    if names.len() > 0 {
        let less = names.drop_last();
        let key = names.last().0;
        lemma_lookup_last(names, path);
        lemma_only_named_restored(t, source, less, path);
        let head = taken_from(t, source, less);
        match lookup(source, key) {
            Some(r) => {
                lemma_bind_ascending(head, key, r);
                lemma_lookup_bind(head, key, r, path);
            },
            None => {
                lemma_unbind_ascending(head, key);
                lemma_lookup_unbind(head, key, path);
            },
        }
    }
}

fn take_from(t: &mut Tree, source: &Tree, names: &OrdMap<()>)
    ensures
        final(t)@ == taken_from(old(t)@, source@, names@),
{
    let ghost all = names@;
    let mut i: usize = 0;
    while i < names.len()
        invariant
            i <= all.len(),
            all == names@,
            t@ == taken_from(old(t)@, source@, all.take(i as int)),
        decreases all.len() - i,
    {
        assert(all.take(i + 1).drop_last() =~= all.take(i as int));
        let path = names.key_at(i);
        match source.get(path) {
            Some(e) => t.insert(copy_text(path), e.duplicate()),
            None => t.remove(path),
        }
        i += 1;
    }
    assert(all.take(i as int) =~= all);
}

/// The tree that paths are restored from.
pub open spec fn restore_source(
    m: Machine,
    s: Screen,
    root: Seq<char>,
    source: Option<Seq<char>>,
    staged: bool,
    index: Files,
) -> (Screen, Result<Files, int>) {
    match source {
        Some(rev) => match revision(m, root, rev) {
            None => (failed(m, s, "unknown restore source"@).s, Err(128)),
            Some(id) => tree_needed(m, s, root, id),
        },
        None => (
            s,
            Ok(
                if staged {
                    head_files(m, root)
                } else {
                    index
                },
            ),
        ),
    }
}

/// Restoring the working tree from a tree.
pub open spec fn work_restored(
    m: Machine,
    s: Screen,
    root: Seq<char>,
    source: Files,
    paths: Seq<Seq<char>>,
) -> Done {
    match working_tree(m, root) {
        (n, Err(e)) => Done { m: n, s, status: e },
        (n, Ok(work)) => match chosen(n.cwd, root, paths, source, work) {
            Err(message) => failed(n, s, message),
            Ok(names) => match tree_written(
                n,
                root,
                among(work, names),
                among(source, names),
                true,
            ) {
                (n2, Ok(())) => Done { m: n2, s, status: 0 },
                (n2, Err(e)) => Done {
                    m: n2,
                    s: complained(s, "git restore: "@ + e + "\n"@),
                    status: 1,
                },
            },
        },
    }
}

/// Restoring paths in the index, the working tree, or both.
pub open spec fn restored(
    m: Machine,
    s: Screen,
    root: Seq<char>,
    source: Option<Seq<char>>,
    paths: Seq<Seq<char>>,
    staged: bool,
    worktree: bool,
) -> Done {
    match index_needed(m, s, root) {
        (t, Err(e)) => Done { m, s: t, status: e },
        (t, Ok(index)) => match restore_source(m, t, root, source, staged, index) {
            (u, Err(e)) => Done { m, s: u, status: e },
            (u, Ok(tree)) => if !staged {
                work_restored(m, u, root, tree, paths)
            } else {
                match chosen(m.cwd, root, paths, index, tree) {
                    Err(message) => failed(m, u, message),
                    Ok(names) => {
                        let fresh = taken_from(index, tree, names);
                        match index_stored(m, root, fresh) {
                            (n, Err(e)) => failed(n, u, write_message("the index"@, e)),
                            (n, Ok(())) => {
                                let after = resolved_paths(n, root, keys_of(names));
                                if worktree {
                                    work_restored(after, u, root, fresh, paths)
                                } else {
                                    Done { m: after, s: u, status: 0 }
                                }
                            },
                        }
                    },
                }
            },
        },
    }
}

proof fn lemma_settling_keeps(m: Machine, root: Seq<char>, paths: Seq<Seq<char>>, at: Seq<char>)
    requires
        lookup(m.files, at) is Some,
        at != git_file(root, "MERGE_STAGES"@),
    ensures
        lookup(resolved_paths(m, root, paths).files, at) == lookup(m.files, at),
        resolved_paths(m, root, paths).memory_limit == m.memory_limit,
{
    let path = git_file(root, "MERGE_STAGES"@);
    let c = without_paths(conflicts_of(m, root), paths);
    lemma_other_key_stays(m.files, path, at);
    lemma_written(m, path, encode_utf8(stages_text(c)), at);
}

/// Restoring paths in the index alone, as a reset of paths does, touches no other file than the index
/// and the record of unmerged paths: neither HEAD nor the working tree moves.
pub proof fn lemma_index_restored_alone(
    m: Machine,
    s: Screen,
    root: Seq<char>,
    source: Option<Seq<char>>,
    paths: Seq<Seq<char>>,
    at: Seq<char>,
)
    requires
        lookup(m.files, at) is Some,
        at != git_file(root, "index"@),
        at != git_file(root, "MERGE_STAGES"@),
    ensures
        lookup(restored(m, s, root, source, paths, true, false).m.files, at) == lookup(m.files, at),
{
    let (t, i) = index_needed(m, s, root);
    if let Ok(index) = i {
        if let (u, Ok(tree)) = restore_source(m, t, root, source, true, index) {
            if let Ok(names) = chosen(m.cwd, root, paths, index, tree) {
                let fresh = taken_from(index, tree, names);
                lemma_written(m, git_file(root, "index"@), tree_bytes(fresh), at);
                lemma_settling_keeps(index_stored(m, root, fresh).0, root, keys_of(names), at);
            }
        }
    }
}

/// A reset of paths rewrites their entries of the index and no other: each is then as the revision
/// holds it.
pub proof fn lemma_reset_of_paths(
    m: Machine,
    s: Screen,
    root: Seq<char>,
    source: Option<Seq<char>>,
    paths: Seq<Seq<char>>,
    index: Files,
    tree: Files,
    names: Names,
    path: Seq<char>,
)
    requires
        index_needed(m, s, root).1 == Ok::<Files, int>(index),
        restore_source(m, index_needed(m, s, root).0, root, source, true, index).1 == Ok::<Files, int>(tree),
        chosen(m.cwd, root, paths, index, tree) == Ok::<Names, Seq<char>>(names),
        ascending(index),
        ascending(names),
        storable(taken_from(index, tree, names)),
        tree_bytes(taken_from(index, tree, names)).len() <= m.memory_limit,
        restored(m, s, root, source, paths, true, false).status == 0,
    ensures
        index_of(restored(m, s, root, source, paths, true, false).m, root) == Some(
            taken_from(index, tree, names),
        ),
        lookup(taken_from(index, tree, names), path) == (if lookup(names, path) is Some {
            lookup(tree, path)
        } else {
            lookup(index, path)
        }),
{
    let fresh = taken_from(index, tree, names);
    lemma_only_named_restored(index, tree, names, path);
    lemma_index_read_back(m, root, fresh);
    lemma_written(m, git_file(root, "index"@), tree_bytes(fresh), git_file(root, "index"@));
    reveal_strlit("index");
    reveal_strlit("MERGE_STAGES");
    assert("index"@.len() != "MERGE_STAGES"@.len());
    lemma_git_files_differ(root, "index"@, "MERGE_STAGES"@);
    lemma_settling_keeps(
        index_stored(m, root, fresh).0,
        root,
        keys_of(names),
        git_file(root, "index"@),
    );
}

fn find_source(
    system: &System,
    root: &str,
    source: &Option<String>,
    staged: bool,
    index: &Tree,
    io: &mut Io,
) -> (r: Result<Tree, i32>)
    ensures
        (final(io)@, got(r)) == restore_source(
            system@,
            old(io)@,
            root@,
            opt_text(*source),
            staged,
            index@,
        ),
{
    match source {
        Some(rev) => match resolve_revision(system, root, rev.as_str()) {
            None => Err(fatal(io, "unknown restore source")),
            Some(id) => require_tree(system, root, id.as_str(), io),
        },
        None => if staged {
            Ok(head_tree(system, root))
        } else {
            Ok(index.duplicate())
        },
    }
}

fn restore_work(system: &mut System, root: &str, source: &Tree, paths: &[String], io: &mut Io) -> (r: i32)
    ensures
        done(final(system)@, final(io)@, r) == work_restored(
            old(system)@,
            old(io)@,
            root@,
            source@,
            texts(paths@),
        ),
{
    let work = match collect_working_tree(system, root) {
        Ok(t) => t,
        Err(e) => return e,
    };
    let names = match selected_paths(system.cwd().as_str(), root, paths, source, &work) {
        Ok(n) => n,
        Err(message) => return fatal(io, message.as_str()),
    };
    let before = tree_among_names(&work, &names);
    let after = tree_among_names(source, &names);
    match replace_work_tree(system, root, &before, &after) {
        Ok(()) => 0,
        Err(e) => {
            io.print_err(join3("git restore: ", e.as_str(), "\n").as_str());
            1
        },
    }
}

/// Restores paths in the index, the working tree, or both.
pub fn restore_paths(
    system: &mut System,
    root: &str,
    source: &Option<String>,
    paths: &[String],
    staged: bool,
    worktree: bool,
    io: &mut Io,
) -> (r: i32)
    ensures
        done(final(system)@, final(io)@, r) == restored(
            old(system)@,
            old(io)@,
            root@,
            opt_text(*source),
            texts(paths@),
            staged,
            worktree,
        ),
{
    let mut index = match require_index(system, root, io) {
        Ok(t) => t,
        Err(e) => return e,
    };
    let tree = match find_source(system, root, source, staged, &index, io) {
        Ok(t) => t,
        Err(e) => return e,
    };
    if !staged {
        return restore_work(system, root, &tree, paths, io);
    }
    let names = match selected_paths(system.cwd().as_str(), root, paths, &index, &tree) {
        Ok(n) => n,
        Err(message) => return fatal(io, message.as_str()),
    };
    take_from(&mut index, &tree, &names);
    match store_index(system, root, &index) {
        Ok(()) => {},
        Err(e) => return cannot_write(io, "the index", &e),
    }
    let list = key_list(&names);
    resolve(system, root, list.as_slice());
    if !worktree {
        return 0;
    }
    restore_work(system, root, &index, paths, io)
}

// ---------------------------------------------------------------------------
// git restore
// ---------------------------------------------------------------------------

/// What the options of `git restore` ask for.
pub struct RestoreAsk {
    pub staged: bool,
    pub worktree: bool,
    pub source: Option<String>,
    /// Which side of a conflict is taken: theirs or ours.
    pub side: Option<bool>,
}

/// What is asked of `git restore`.
#[verifier::ext_equal]
pub struct RestoreWish {
    pub staged: bool,
    pub worktree: bool,
    pub source: Option<Seq<char>>,
    pub side: Option<bool>,
}

impl View for RestoreAsk {
    type V = RestoreWish;

    open spec fn view(&self) -> RestoreWish {
        RestoreWish {
            staged: self.staged,
            worktree: self.worktree,
            source: opt_text(self.source),
            side: self.side,
        }
    }
}

impl Syntax for RestoreAsk {
    open spec fn wants(name: Seq<char>) -> Want {
        if name == "--source"@ || name == "-s"@ {
            Want::Needed
        } else {
            Want::Attached
        }
    }

    open spec fn with(asked: RestoreWish, name: Seq<char>, value: Option<Seq<char>>) -> Result<
        RestoreWish,
        Seq<char>,
    > {
        if name == "--staged"@ || name == "-S"@ {
            Ok(RestoreWish { staged: true, ..asked })
        } else if name == "--worktree"@ || name == "-W"@ {
            Ok(RestoreWish { worktree: true, ..asked })
        } else if name == "--source"@ || name == "-s"@ {
            match value {
                Some(v) => Ok(RestoreWish { source: Some(v), ..asked }),
                None => Err("--source requires a revision"@),
            }
        } else if name == "-q"@ || name == "--quiet"@ {
            Ok(asked)
        } else if name == "--ours"@ {
            Ok(RestoreWish { side: Some(false), ..asked })
        } else if name == "--theirs"@ {
            Ok(RestoreWish { side: Some(true), ..asked })
        } else {
            Err("unsupported restore option: "@ + name)
        }
    }

    fn wanted(name: &str) -> (r: Want) {
        if same(name, "--source") || same(name, "-s") {
            Want::Needed
        } else {
            Want::Attached
        }
    }

    fn apply(&mut self, name: &str, value: Option<String>) -> (r: Result<(), String>) {
        if same(name, "--staged") || same(name, "-S") {
            self.staged = true;
        } else if same(name, "--worktree") || same(name, "-W") {
            self.worktree = true;
        } else if same(name, "--source") || same(name, "-s") {
            match value {
                Some(v) => self.source = Some(v),
                None => return Err(copy_text("--source requires a revision")),
            }
        } else if same(name, "-q") || same(name, "--quiet") {
        } else if same(name, "--ours") {
            self.side = Some(false);
        } else if same(name, "--theirs") {
            self.side = Some(true);
        } else {
            return Err(join2("unsupported restore option: ", name));
        }
        Ok(())
    }
}

/// What `git restore` is asked for without any option.
pub open spec fn plain_restore() -> RestoreWish {
    RestoreWish { staged: false, worktree: false, source: None, side: None }
}

/// `git restore`.
pub open spec fn restore_done(m: Machine, s: Screen, args: Seq<Seq<char>>) -> Done {
    match repo_root(m) {
        None => no_repo(m, s),
        Some(root) => match words_read::<RestoreAsk>(
            pass_for(args, "SWq"@, "s"@),
            plain_restore(),
            seq![],
        ) {
            Err(message) => misused(m, s, message),
            Ok((asked, paths)) => match asked.side {
                Some(theirs) => side_taken(m, s, root, theirs, paths),
                None => if paths.len() == 0 {
                    failed(m, s, "you must specify path(s) to restore"@)
                } else {
                    restored(
                        m,
                        s,
                        root,
                        asked.source,
                        paths,
                        asked.staged,
                        asked.worktree || !asked.staged,
                    )
                },
            },
        },
    }
}

/// `git restore`: restores files of the working tree or of the index.
pub fn git_restore(system: &mut System, args: &[String], io: &mut Io) -> (r: i32)
    ensures
        done(final(system)@, final(io)@, r) == restore_done(old(system)@, old(io)@, texts(args@)),
{
    let root = match find_repo_root(system) {
        Some(root) => root,
        None => return repo_error(io),
    };
    let start = RestoreAsk { staged: false, worktree: false, source: None, side: None };
    let (asked, paths) = match read_words(flags_for(args, "SWq", "s"), start) {
        Ok(pair) => pair,
        Err(message) => return usage(io, message.as_str()),
    };
    if let Some(theirs) = asked.side {
        return checkout_side(system, root.as_str(), theirs, paths.as_slice(), io);
    }
    assert(texts(paths@).len() == paths@.len());
    if paths.len() == 0 {
        return fatal(io, "you must specify path(s) to restore");
    }
    restore_paths(
        system,
        root.as_str(),
        &asked.source,
        paths.as_slice(),
        asked.staged,
        asked.worktree || !asked.staged,
        io,
    )
}

// ---------------------------------------------------------------------------
// git reset
// ---------------------------------------------------------------------------

/// How much a reset moves.
#[derive(Clone, Copy, PartialEq, Eq, Structural)]
pub enum ResetMode {
    /// HEAD alone.
    Soft,
    /// HEAD and the index.
    Mixed,
    /// HEAD, the index and the working tree.
    Hard,
}

/// What the arguments of `git reset` ask for.
pub struct ResetAsk {
    pub mode: ResetMode,
    pub target: Option<String>,
    pub paths: Vec<String>,
}

/// What is asked of `git reset`.
#[verifier::ext_equal]
pub struct ResetWish {
    pub mode: ResetMode,
    pub target: Option<Seq<char>>,
    pub paths: Seq<Seq<char>>,
}

impl View for ResetAsk {
    type V = ResetWish;

    open spec fn view(&self) -> ResetWish {
        ResetWish { mode: self.mode, target: opt_text(self.target), paths: texts(self.paths@) }
    }
}

/// What is asked for once an operand is read. Before `--`, a name that resolves is the revision;
/// anything else has to name a path.
pub open spec fn reset_operand(
    m: Machine,
    root: Seq<char>,
    x: ResetWish,
    separated: bool,
    value: Seq<char>,
) -> Result<ResetWish, Objection> {
    if x.target is None && !separated && revision(m, root, value) is Some {
        Ok(ResetWish { target: Some(value), ..x })
    } else if !path_named(m, root, value) {
        Err(Objection::Ambiguous(value))
    } else {
        Ok(ResetWish { paths: x.paths.push(value), ..x })
    }
}

/// What is asked for once an option is read.
pub open spec fn reset_option(x: ResetWish, name: Seq<char>) -> Result<ResetWish, Objection> {
    if name == "--soft"@ {
        Ok(ResetWish { mode: ResetMode::Soft, ..x })
    } else if name == "--mixed"@ {
        Ok(ResetWish { mode: ResetMode::Mixed, ..x })
    } else if name == "--hard"@ {
        Ok(ResetWish { mode: ResetMode::Hard, ..x })
    } else if name == "-q"@ || name == "--quiet"@ {
        Ok(x)
    } else {
        Err(Objection::Usage("unsupported reset option: "@ + name))
    }
}

/// What the arguments ask for from where the pass stands.
pub open spec fn reset_words(m: Machine, root: Seq<char>, p: Pass, x: ResetWish) -> Result<
    ResetWish,
    Objection,
>
    decreases p.args.len() - p.at,
{
    let (word, q) = next_word(p);
    match word {
        None => Ok(x),
        Some(Word::Operand(value)) => match reset_operand(m, root, x, q.operands_only, value) {
            Ok(y) => reset_words(m, root, q, y),
            Err(e) => Err(e),
        },
        Some(Word::Option { name, .. }) => match reset_option(x, name) {
            Ok(y) => reset_words(m, root, q, y),
            Err(e) => Err(e),
        },
    }
}

/// What the words that were read say.
pub open spec fn reset_result(r: Result<ResetAsk, Complaint>) -> Result<ResetWish, Objection> {
    match r {
        Ok(x) => Ok(x@),
        Err(e) => Err(e@),
    }
}

fn read_reset_operand(system: &System, root: &str, x: ResetAsk, separated: bool, value: String) -> (r:
    Result<ResetAsk, Complaint>)
    ensures
        reset_result(r) == reset_operand(system@, root@, x@, separated, value@),
{
    broadcast use lemma_texts_push;

    if x.target.is_none() && !separated && resolve_revision(system, root, value.as_str()).is_some() {
        return Ok(ResetAsk { mode: x.mode, target: Some(value), paths: x.paths });
    }
    if !names_a_path(system, root, value.as_str()) {
        return Err(Complaint::Ambiguous(value));
    }
    let mut paths = x.paths;
    paths.push(value);
    Ok(ResetAsk { mode: x.mode, target: x.target, paths })
}

fn read_reset_option(x: ResetAsk, name: &str) -> (r: Result<ResetAsk, Complaint>)
    ensures
        reset_result(r) == reset_option(x@, name@),
{
    let mode = if same(name, "--soft") {
        ResetMode::Soft
    } else if same(name, "--mixed") {
        ResetMode::Mixed
    } else if same(name, "--hard") {
        ResetMode::Hard
    } else if same(name, "-q") || same(name, "--quiet") {
        x.mode
    } else {
        return Err(Complaint::Usage(join2("unsupported reset option: ", name)));
    };
    Ok(ResetAsk { mode, target: x.target, paths: x.paths })
}

fn read_reset(system: &System, root: &str, flags: Flags) -> (r: Result<ResetAsk, Complaint>)
    requires
        in_range(flags@),
    ensures
        reset_result(r) == reset_words(system@, root@, flags@, no_reset()),
{
    let mut pass = flags;
    let mut x = ResetAsk { mode: ResetMode::Mixed, target: None, paths: Vec::new() };
    assert(texts(x.paths@) =~= seq![]);
    let ghost goal = reset_words(system@, root@, flags@, no_reset());
    loop
        invariant
            in_range(pass@),
            goal == reset_words(system@, root@, flags@, no_reset()),
            goal == reset_words(system@, root@, pass@, x@),
        decreases pass@.args.len() - pass@.at,
    {
        match pass.next() {
            None => return Ok(x),
            Some(Arg::Operand(value)) => {
                let separated = pass.separated();
                x = match read_reset_operand(system, root, x, separated, value) {
                    Ok(y) => y,
                    Err(e) => return Err(e),
                };
            },
            Some(Arg::Option { name, .. }) => {
                x = match read_reset_option(x, name.as_str()) {
                    Ok(y) => y,
                    Err(e) => return Err(e),
                };
            },
        }
    }
}

/// What `git reset` is asked for without any argument.
pub open spec fn no_reset() -> ResetWish {
    ResetWish { mode: ResetMode::Mixed, target: None, paths: seq![] }
}

/// The test for paths of a tree that the working tree does not hold in the same way.
pub open spec fn differs_test(tree: Files, work: Files) -> spec_fn(Seq<char>) -> bool {
    |p: Seq<char>| lookup(work, p) != lookup(tree, p)
}

/// The list of paths that differ from the index after a reset.
pub open spec fn unstaged_listed(m: Machine, s: Screen, root: Seq<char>, tree: Files) -> (
    Machine,
    Screen,
) {
    match working_tree(m, root) {
        (n, Err(_)) => (n, s),
        (n, Ok(work)) => {
            let v = kept(keys_of(tree), differs_test(tree, work));
            if v.len() == 0 {
                (n, s)
            } else {
                (n, printed(s, "Unstaged changes after reset:\n"@ + framed("M\t"@, v, "\n"@)))
            }
        },
    }
}

fn list_unstaged(system: &mut System, root: &str, tree: &Tree, io: &mut Io)
    ensures
        (final(system)@, final(io)@) == unstaged_listed(old(system)@, old(io)@, root@, tree@),
{
    let work = match collect_working_tree(system, root) {
        Ok(t) => t,
        Err(_) => return ,
    };
    let ghost all = keys_of(tree@);
    let mut v: Vec<String> = Vec::new();
    let mut i: usize = 0;
    assert(texts(v@) =~= seq![]);
    while i < tree.len()
        invariant
            i <= tree@.len(),
            all == keys_of(tree@),
            texts(v@) == kept(all.take(i as int), differs_test(tree@, work@)),
        decreases tree@.len() - i,
    {
        broadcast use lemma_texts_push;

        assert(all.take(i + 1).drop_last() =~= all.take(i as int));
        let path = tree.key_at(i);
        assert(all.take(i + 1).last() == path@);
        if !same_entry(work.get(path), tree.get(path)) {
            v.push(copy_text(path));
        }
        i += 1;
    }
    assert(all.take(i as int) =~= all);
    assert(texts(v@).len() == v@.len());
    if v.len() > 0 {
        io.print(
            join2(
                "Unstaged changes after reset:\n",
                frame_all("M\t", v.as_slice(), "\n").as_str(),
            ).as_str(),
        );
    }
}

/// The first line of the message of a commit; empty where there is no such commit.
pub open spec fn subject_at(m: Machine, root: Seq<char>, id: Seq<char>) -> Seq<char> {
    match commit_of(m, root, id) {
        Some(n) => subject_of(n.message),
        None => ""@,
    }
}

/// The first line of the message of a commit.
pub fn subject_of_commit(system: &System, root: &str, id: &str) -> (r: String)
    ensures
        r@ == subject_at(system@, root@, id@),
{
    match load_commit(system, root, id) {
        Some(c) => c.subject(),
        None => copy_text(""),
    }
}

/// Discarding what the index and the working tree hold.
pub open spec fn hard_moved(m: Machine, s: Screen, root: Seq<char>, tree: Files) -> Done {
    match index_needed(m, s, root) {
        (t, Err(e)) => Done { m, s: t, status: e },
        (t, Ok(index)) => match tree_written(
            m,
            root,
            overlaid(head_files(m, root), index),
            tree,
            true,
        ) {
            (n, Ok(())) => Done { m: n, s: t, status: 0 },
            (n, Err(e)) => Done {
                m: n,
                s: complained(t, "git reset: "@ + e + "\n"@),
                status: 1,
            },
        },
    }
}

/// The end of a reset of HEAD: the index is stored, HEAD moves, and a report is printed.
pub open spec fn reset_ended(
    m: Machine,
    s: Screen,
    root: Seq<char>,
    mode: ResetMode,
    target: Seq<char>,
    id: Seq<char>,
    tree: Files,
) -> Done {
    let (n, a) = if mode == ResetMode::Soft {
        (m, Ok::<(), Refusal>(()))
    } else {
        index_stored(m, root, tree)
    };
    match a {
        Err(e) => failed(n, s, write_message("the index"@, e)),
        Ok(()) => match head_updated(n, root, id, "reset: moving to "@ + target) {
            (n2, Err(e)) => failed(n2, s, write_message("HEAD"@, e)),
            (n2, Ok(())) => match mode {
                ResetMode::Soft => Done { m: n2, s, status: 0 },
                ResetMode::Mixed => {
                    let (n3, t) = unstaged_listed(n2, s, root, tree);
                    Done { m: n3, s: t, status: 0 }
                },
                ResetMode::Hard => Done {
                    m: n2,
                    s: printed(
                        s,
                        "HEAD is now at "@ + short_id(id) + " "@ + subject_at(n2, root, id)
                            + "\n"@,
                    ),
                    status: 0,
                },
            },
        },
    }
}

/// Resetting HEAD to a commit. This also drops the records of an operation that is not finished.
pub open spec fn reset_whole(
    m: Machine,
    s: Screen,
    root: Seq<char>,
    mode: ResetMode,
    target: Seq<char>,
    id: Seq<char>,
    tree: Files,
) -> Done {
    let m1 = cleared(orig_head_recorded(m, root), root);
    if mode == ResetMode::Hard {
        let d = hard_moved(m1, s, root, tree);
        if d.status != 0 {
            d
        } else {
            reset_ended(d.m, d.s, root, mode, target, id, tree)
        }
    } else {
        reset_ended(m1, s, root, mode, target, id, tree)
    }
}

/// Resetting to what was asked for.
pub open spec fn reset_within(m: Machine, s: Screen, root: Seq<char>, x: ResetWish) -> Done {
    let target = match x.target {
        Some(t) => t,
        None => "HEAD"@,
    };
    match revision(m, root, target) {
        None => if target == "HEAD"@ {
            let (n, r) = index_stored(m, root, seq![]);
            Done {
                m: n,
                s,
                status: if r is Ok {
                    0
                } else {
                    1
                },
            }
        } else {
            ambiguous(m, s, target)
        },
        Some(id) => match tree_needed(m, s, root, id) {
            (t, Err(e)) => Done { m, s: t, status: e },
            (t, Ok(tree)) => if x.paths.len() == 0 {
                reset_whole(m, t, root, x.mode, target, id, tree)
            } else if x.mode != ResetMode::Mixed {
                misused(m, t, "a pathspec cannot be combined with --soft or --hard"@)
            } else {
                restored(m, t, root, Some(target), x.paths, true, false)
            },
        },
    }
}

/// `git reset`.
pub open spec fn reset_done(m: Machine, s: Screen, args: Seq<Seq<char>>) -> Done {
    match repo_root(m) {
        None => no_repo(m, s),
        Some(root) => match reset_words(m, root, pass_for(args, "q"@, ""@), no_reset()) {
            Err(o) => objected(m, s, o),
            Ok(x) => reset_within(m, s, root, x),
        },
    }
}

fn discard_work(system: &mut System, root: &str, tree: &Tree, io: &mut Io) -> (r: i32)
    ensures
        done(final(system)@, final(io)@, r) == hard_moved(old(system)@, old(io)@, root@, tree@),
{
    let mut before = head_tree(system, root);
    match require_index(system, root, io) {
        Ok(index) => overlay(&mut before, &index),
        Err(e) => return e,
    }
    match replace_work_tree(system, root, &before, tree) {
        Ok(()) => 0,
        Err(e) => {
            io.print_err(join3("git reset: ", e.as_str(), "\n").as_str());
            1
        },
    }
}

fn end_reset(
    system: &mut System,
    root: &str,
    mode: ResetMode,
    target: &str,
    id: &str,
    tree: &Tree,
    io: &mut Io,
) -> (r: i32)
    ensures
        done(final(system)@, final(io)@, r) == reset_ended(
            old(system)@,
            old(io)@,
            root@,
            mode,
            target@,
            id@,
            tree@,
        ),
{
    if mode != ResetMode::Soft {
        match store_index(system, root, tree) {
            Ok(()) => {},
            Err(e) => return cannot_write(io, "the index", &e),
        }
    }
    match update_head(system, root, id, join2("reset: moving to ", target).as_str()) {
        Ok(()) => {},
        Err(e) => return cannot_write(io, "HEAD", &e),
    }
    match mode {
        ResetMode::Soft => {},
        ResetMode::Mixed => list_unstaged(system, root, tree, io),
        ResetMode::Hard => {
            let subject = subject_of_commit(system, root, id);
            io.print(
                join5(
                    "HEAD is now at ",
                    short(id).as_str(),
                    " ",
                    subject.as_str(),
                    "\n",
                ).as_str(),
            );
        },
    }
    0
}

fn reset_head(
    system: &mut System,
    root: &str,
    mode: ResetMode,
    target: &str,
    id: &str,
    tree: &Tree,
    io: &mut Io,
) -> (r: i32)
    ensures
        done(final(system)@, final(io)@, r) == reset_whole(
            old(system)@,
            old(io)@,
            root@,
            mode,
            target@,
            id@,
            tree@,
        ),
{
    record_orig_head(system, root);
    crate::stages::clear(system, root);
    if mode == ResetMode::Hard {
        let status = discard_work(system, root, tree, io);
        if status != 0 {
            return status;
        }
    }
    end_reset(system, root, mode, target, id, tree, io)
}

/// `git reset`: moves HEAD, and the index and the working tree as far as it is asked to.
pub fn git_reset(system: &mut System, args: &[String], io: &mut Io) -> (r: i32)
    ensures
        done(final(system)@, final(io)@, r) == reset_done(old(system)@, old(io)@, texts(args@)),
{
    let root = match find_repo_root(system) {
        Some(root) => root,
        None => return repo_error(io),
    };
    let x = match read_reset(system, root.as_str(), flags_for(args, "q", "")) {
        Ok(x) => x,
        Err(c) => {
            assert(objected(system@, io@, c@).m == system@);
            return c.report(io);
        },
    };
    let target = match &x.target {
        Some(t) => copy_text(t.as_str()),
        None => copy_text("HEAD"),
    };
    let id = match resolve_revision(system, root.as_str(), target.as_str()) {
        Some(id) => id,
        None => {
            if same(target.as_str(), "HEAD") {
                let none: Tree = OrdMap::new();
                assert(none@ =~= seq![]);
                return match store_index(system, root.as_str(), &none) {
                    Ok(()) => 0,
                    Err(_) => 1,
                };
            }
            return ambiguous_argument(io, target.as_str());
        },
    };
    let tree = match require_tree(system, root.as_str(), id.as_str(), io) {
        Ok(t) => t,
        Err(e) => return e,
    };
    assert(texts(x.paths@).len() == x.paths@.len());
    if x.paths.len() == 0 {
        return reset_head(
            system,
            root.as_str(),
            x.mode,
            target.as_str(),
            id.as_str(),
            &tree,
            io,
        );
    }
    if x.mode != ResetMode::Mixed {
        return usage(io, "a pathspec cannot be combined with --soft or --hard");
    }
    restore_paths(
        system,
        root.as_str(),
        &Some(target),
        x.paths.as_slice(),
        true,
        false,
        io,
    )
}

} // verus!
