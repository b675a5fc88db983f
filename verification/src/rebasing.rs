//! `git rebase`: replaying a branch onto another commit.

use vstd::prelude::*;

use crate::combine::{combine, mixed, Combined, Mix};
use crate::committing::{commit_summary, render_commit_summary};
use crate::common::{
    done, index_needed, parent_needed, parent_tree, require_index, require_tree, snapshot, tree_needed, trio_read,
    Trio,
};
use crate::console::{
    cannot_write, complained, failed, fatal, misused, no_repo, printed, repo_error, usage, write_message, Done, Io,
    Screen,
};
use crate::history::{
    ancestors, ancestry, first_parent_history, first_parents, listed, merge_base, shared_base, within, Listed, Names,
};
use crate::moves::{
    all_staged, dirty, dirty_paths, only_staged, overwrite_refused, refuse_untracked_overwrite,
};
use crate::names::{key_list, same_tree};
use crate::objects::{short, short_id};
use crate::order::keys_of;
use crate::progress::{
    clear_rebase, load_rebase, rebase_cleared, rebase_of, rebase_stored, store_rebase, Rebase, State,
};
use crate::records::{subject_of, Commit, Note};
use crate::repo::{
    branch_of, commit_id, commit_of, commit_stored, current_branch, find_repo_root, head_commit, head_detached,
    head_files, head_id, head_on_branch, head_tree, head_updated, index_stored, load_commit, orig_head_recorded,
    record_orig_head, reference_written, repo_root, set_head_detached, set_head_to_branch, store_commit,
    store_index, update_head, write_reference,
};
use crate::revisions::{resolve_revision, revision};
use crate::revset::MAX_LISTED;
use crate::stages::{clear, cleared, conflicts_of, conflicts_stored, load_stages, store_stages};
use crate::status::{frame_all, framed};
use crate::switching::{switch_to_branch, switched_to};
use crate::syntax::{flags_for, pass_for, read_talk, stopped, talk_read, Halt, Stop, Talk, Want};
use crate::system::{Machine, System};
use crate::text::{copy_text, join2, join3, join4, join5, lemma_texts_push, opt_text, same, texts};
use crate::trees::{Files, Tree};
use crate::worktree::{replace_work_tree, tree_written, update_work_tree};

verus! {

// ---------------------------------------------------------------------------
// What is replayed
// ---------------------------------------------------------------------------

/// The ids of a list of commits up to the first that is among others, the last first.
pub open spec fn ids_until(v: Seq<Listed>, others: Names, i: int) -> Seq<Seq<char>>
    decreases v.len() - i,
{
    if i < 0 || i >= v.len() || within(others, v[i].0) {
        seq![]
    } else {
        ids_until(v, others, i + 1).push(v[i].0)
    }
}

/// The commits that one commit has and another lacks, the oldest first.
pub open spec fn to_replay(m: Machine, root: Seq<char>, head: Seq<char>, upstream: Seq<char>) -> Seq<Seq<char>> {
    ids_until(
        first_parents(m, root, Some(head), MAX_LISTED as nat, seq![]),
        ancestry(m, root, upstream),
        0,
    )
}

/// The commits that one commit has and another lacks, the oldest first.
pub fn commits_to_replay(system: &System, root: &str, head: &str, upstream: &str) -> (r: Vec<String>)
    ensures
        texts(r@) == to_replay(system@, root@, head@, upstream@),
{
    let others = ancestors(system, root, upstream);
    let v = first_parent_history(system, root, head, MAX_LISTED);
    let ghost all = listed(v@);
    let mut n: usize = 0;
    while n < v.len() && !others.contains_key(v[n].0.as_str())
        invariant
            n <= v@.len(),
            all == listed(v@),
            forall|k: int| 0 <= k < n ==> !within(others@, (#[trigger] all[k]).0),
        decreases v@.len() - n,
    {
        assert(all[n as int].0 == v@[n as int].0@);
        n += 1;
    }
    let mut out: Vec<String> = Vec::new();
    let mut i: usize = n;
    assert(texts(out@) =~= seq![]);
    assert(n < v@.len() ==> all[n as int].0 == v@[n as int].0@);
    assert(ids_until(all, others@, n as int) =~= seq![]);
    while i > 0
        invariant
            i <= n <= v@.len(),
            all == listed(v@),
            forall|k: int| 0 <= k < n ==> !within(others@, (#[trigger] all[k]).0),
            texts(out@) == ids_until(all, others@, i as int),
        decreases i,
    {
        broadcast use lemma_texts_push;

        i -= 1;
        assert(all[i as int].0 == v@[i as int].0@);
        assert(!within(others@, all[i as int].0));
        out.push(copy_text(v[i].0.as_str()));
    }
    out
}

// ---------------------------------------------------------------------------
// Steps
// ---------------------------------------------------------------------------

/// Moving the working tree and the index to a commit, keeping nothing of what is recorded there.
pub open spec fn laid_down(m: Machine, s: Screen, root: Seq<char>, id: Seq<char>) -> Done {
    match tree_needed(m, s, root, id) {
        (t, Err(e)) => Done { m, s: t, status: e },
        (t, Ok(target)) => match trio_read(m, t, root) {
            (n, u, Err(e)) => Done { m: n, s: u, status: e },
            (n, u, Ok(trio)) => {
                let (w, refused) = overwrite_refused(
                    u,
                    trio,
                    target,
                    "checkout"@,
                    "switch branches"@,
                );
                if refused {
                    Done { m: n, s: w, status: 1 }
                } else {
                    match tree_written(n, root, trio.head, target, true) {
                        (n2, Err(e)) => Done {
                            m: n2,
                            s: complained(u, "git rebase: "@ + e + "\n"@),
                            status: 1,
                        },
                        (n2, Ok(())) => match index_stored(n2, root, target) {
                            (n3, Err(e)) => failed(n3, u, write_message("the index"@, e)),
                            (n3, Ok(())) => Done { m: n3, s: u, status: 0 },
                        },
                    }
                }
            },
        },
    }
}

fn lay_down(system: &mut System, root: &str, commit: &str, io: &mut Io) -> (r: i32)
    ensures
        done(final(system)@, final(io)@, r) == laid_down(
            old(system)@,
            old(io)@,
            root@,
            commit@,
        ),
{
    let target = match require_tree(system, root, commit, io) {
        Ok(t) => t,
        Err(e) => return e,
    };
    let trio = match snapshot(system, root, io) {
        Ok(x) => x,
        Err(e) => return e,
    };
    if refuse_untracked_overwrite(&trio, &target, "checkout", "switch branches", io) {
        return 1;
    }
    match replace_work_tree(system, root, &trio.head, &target) {
        Ok(()) => {},
        Err(e) => {
            io.print_err(join3("git rebase: ", e.as_str(), "\n").as_str());
            return 1;
        },
    }
    match store_index(system, root, &target) {
        Ok(()) => 0,
        Err(e) => cannot_write(io, "the index", &e),
    }
}

/// The record of a replayed commit: all but its parent is kept.
pub open spec fn replayed_note(n: Note, head: Seq<char>) -> Note {
    Note { parents: seq![head], ..n }
}

/// Recording a replayed commit.
pub open spec fn replay_recorded(
    m: Machine,
    s: Screen,
    root: Seq<char>,
    n: Note,
    tree: Files,
    verb: Seq<char>,
) -> Done {
    match head_id(m, root) {
        None => Done { m, s, status: 1 },
        Some(head) => {
            let note = replayed_note(n, head);
            match commit_stored(m, root, note, tree) {
                (m1, Err(e)) => failed(m1, s, write_message("the commit"@, e)),
                (m1, Ok(())) => match head_updated(
                    m1,
                    root,
                    commit_id(note, tree),
                    "rebase ("@ + verb + "): "@ + subject_of(n.message),
                ) {
                    (m2, Err(e)) => failed(m2, s, write_message("HEAD"@, e)),
                    (m2, Ok(())) => Done { m: m2, s, status: 0 },
                },
            }
        },
    }
}

/// The id of the commit that a replay records.
pub open spec fn replayed_id(m: Machine, root: Seq<char>, n: Note, tree: Files) -> Seq<char> {
    match head_id(m, root) {
        Some(head) => commit_id(replayed_note(n, head), tree),
        None => ""@,
    }
}

fn record(system: &mut System, root: &str, original: &Commit, tree: &Tree, verb: &str, io: &mut Io) -> (r:
    Result<String, i32>)
    ensures
        match r {
            Ok(id) => done(final(system)@, final(io)@, 0) == replay_recorded(
                old(system)@,
                old(io)@,
                root@,
                original@,
                tree@,
                verb@,
            ) && id@ == replayed_id(old(system)@, root@, original@, tree@),
            Err(e) => done(final(system)@, final(io)@, e) == replay_recorded(
                old(system)@,
                old(io)@,
                root@,
                original@,
                tree@,
                verb@,
            ) && e != 0,
        },
{
    let head = match head_commit(system, root) {
        Some(head) => head,
        None => return Err(1),
    };
    let mut parents: Vec<String> = Vec::new();
    parents.push(head);
    assert(texts(parents@) =~= seq![head@]);
    let commit = Commit {
        parents,
        author_name: copy_text(original.author_name.as_str()),
        author_email: copy_text(original.author_email.as_str()),
        timestamp: original.timestamp,
        message: copy_text(original.message.as_str()),
    };
    assert(commit@ =~= replayed_note(original@, head@));
    let id = match store_commit(system, root, &commit, tree) {
        Ok(id) => id,
        Err(e) => return Err(cannot_write(io, "the commit", &e)),
    };
    let action = join4("rebase (", verb, "): ", commit.subject().as_str());
    match update_head(system, root, id.as_str(), action.as_str()) {
        Ok(()) => {},
        Err(e) => return Err(cannot_write(io, "HEAD", &e)),
    }
    Ok(id)
}

/// How to carry on after conflicts.
pub open spec fn rebase_advice(paths: Seq<Seq<char>>, label: Seq<char>) -> Seq<char> {
    framed("CONFLICT (content): Merge conflict in "@, paths, "\n"@) + "error: could not apply "@
        + label
        + "\nhint: Resolve all conflicts manually, mark them as resolved with\nhint: \"git add/rm <pathspec>\", then run \"git rebase --continue\".\nhint: You can instead skip this commit: run \"git rebase --skip\".\nhint: To abort and get back to the state before \"git rebase\", run\nhint: \"git rebase --abort\".\n"@
}

/// What follows once the trees of one commit are combined. A commit whose change is already there is
/// dropped.
pub open spec fn rebase_settled(
    m: Machine,
    s: Screen,
    root: Seq<char>,
    x: Rebase,
    n: Note,
    label: Seq<char>,
    ours: Files,
    mix: Mix,
) -> Done {
    match tree_written(m, root, ours, mix.tree, false) {
        (m1, Err(e)) => Done { m: m1, s: complained(s, "git rebase: "@ + e + "\n"@), status: 1 },
        (m1, Ok(())) => match index_stored(m1, root, mix.tree) {
            (m2, Err(e)) => failed(m2, s, write_message("the index"@, e)),
            (m2, Ok(())) => if mix.stages.len() > 0 {
                let (m3, a) = rebase_stored(m2, root, x);
                if !a {
                    Done { m: m3, s, status: 1 }
                } else {
                    let (m4, b) = conflicts_stored(m3, root, mix.stages);
                    if !b {
                        Done { m: m4, s, status: 1 }
                    } else {
                        Done {
                            m: m4,
                            s: complained(s, rebase_advice(keys_of(mix.stages), label)),
                            status: 1,
                        }
                    }
                }
            } else if mix.tree != ours {
                replay_recorded(m2, s, root, n, mix.tree, "pick"@)
            } else {
                Done { m: m2, s, status: 0 }
            },
        },
    }
}

fn settle_rebase(
    system: &mut System,
    root: &str,
    x: &State,
    original: &Commit,
    label: &str,
    ours: &Tree,
    combined: &Combined,
    io: &mut Io,
) -> (r: i32)
    ensures
        done(final(system)@, final(io)@, r) == rebase_settled(
            old(system)@,
            old(io)@,
            root@,
            x@,
            original@,
            label@,
            ours@,
            (Mix { tree: combined.tree@, stages: combined.stages@ }),
        ),
{
    match update_work_tree(system, root, ours, &combined.tree) {
        Ok(()) => {},
        Err(e) => {
            io.print_err(join3("git rebase: ", e.as_str(), "\n").as_str());
            return 1;
        },
    }
    match store_index(system, root, &combined.tree) {
        Ok(()) => {},
        Err(e) => return cannot_write(io, "the index", &e),
    }
    if combined.stages.len() > 0 {
        if !store_rebase(system, root, x) {
            return 1;
        }
        if !store_stages(system, root, &combined.stages) {
            return 1;
        }
        let paths = key_list(&combined.stages);
        let mut out = join4(
            frame_all("CONFLICT (content): Merge conflict in ", paths.as_slice(), "\n").as_str(),
            "error: could not apply ",
            label,
            "\nhint: Resolve all conflicts manually, mark them as resolved with\nhint: \"git add/rm <pathspec>\", then run \"git rebase --continue\".\nhint: You can instead skip this commit: run \"git rebase --skip\".\nhint: To abort and get back to the state before \"git rebase\", run\nhint: \"git rebase --abort\".\n",
        );
        io.print_err(out.as_str());
        return 1;
    }
    if !same_tree(&combined.tree, ours) {
        return match record(system, root, original, &combined.tree, "pick", io) {
            Ok(_) => 0,
            Err(e) => e,
        };
    }
    0
}

/// The first parent of a record.
pub open spec fn first_parent_of(n: Note) -> Option<Seq<char>> {
    if n.parents.len() > 0 {
        Some(n.parents[0])
    } else {
        None
    }
}

/// Replaying the first commit that is left. The status is zero where the run goes on.
pub open spec fn one_rebased(m: Machine, s: Screen, root: Seq<char>, x: Rebase) -> Done {
    let id = x.todo[0];
    match commit_of(m, root, id) {
        None => failed(m, s, "bad object "@ + id),
        Some(n) => match head_id(m, root) {
            None => Done { m, s, status: 1 },
            Some(head) => match parent_needed(m, s, root, first_parent_of(n)) {
                (t, Err(e)) => Done { m, s: t, status: e },
                (t, Ok(base)) => {
                    let (u, a) = tree_needed(m, t, root, id);
                    let (w, b) = tree_needed(m, u, root, head);
                    match (a, b) {
                        (Err(e), _) => Done { m, s: w, status: e },
                        (_, Err(e)) => Done { m, s: w, status: e },
                        (Ok(theirs), Ok(ours)) => {
                            let label = short_id(id) + " ("@ + subject_of(n.message) + ")"@;
                            match mixed(m, root, (base, ours, theirs), ("HEAD"@, label)) {
                                (m1, Err((path, e))) => failed(m1, w, write_message(path, e)),
                                (m1, Ok(mix)) => rebase_settled(
                                    m1,
                                    w,
                                    root,
                                    x,
                                    n,
                                    label,
                                    ours,
                                    mix,
                                ),
                            }
                        },
                    }
                },
            },
        },
    }
}

fn replay_first(system: &mut System, root: &str, x: &State, io: &mut Io) -> (r: i32)
    requires
        x.todo@.len() > 0,
    ensures
        done(final(system)@, final(io)@, r) == one_rebased(old(system)@, old(io)@, root@, x@),
{
    assert(x@.todo[0] == x.todo@[0]@);
    let id = x.todo[0].as_str();
    let original = match load_commit(system, root, id) {
        Some(c) => c,
        None => return fatal(io, join2("bad object ", id).as_str()),
    };
    let head = match head_commit(system, root) {
        Some(head) => head,
        None => return 1,
    };
    assert(original@.parents.len() == original.parents@.len());
    let parent = if original.parents.len() > 0 {
        assert(original@.parents[0] == original.parents@[0]@);
        Some(copy_text(original.parents[0].as_str()))
    } else {
        None
    };
    let base = match parent_tree(system, root, &parent, io) {
        Ok(t) => t,
        Err(e) => return e,
    };
    let theirs = require_tree(system, root, id, io);
    let ours = require_tree(system, root, head.as_str(), io);
    let (theirs, ours) = match (theirs, ours) {
        (Err(e), _) => return e,
        (_, Err(e)) => return e,
        (Ok(a), Ok(b)) => (a, b),
    };
    let label = join4(short(id).as_str(), " (", original.subject().as_str(), ")");
    let combined = match combine(
        system,
        root,
        &base,
        &ours,
        &theirs,
        "HEAD",
        label.as_str(),
    ) {
        Ok(c) => c,
        Err(f) => return cannot_write(io, f.path.as_str(), &f.error),
    };
    settle_rebase(system, root, x, &original, label.as_str(), &ours, &combined, io)
}

/// The end of a rebase: the branch moves to where the replay ended, and HEAD goes back on it.
pub open spec fn rebase_landed(m: Machine, s: Screen, root: Seq<char>, x: Rebase) -> Done {
    let name = "refs/heads/"@ + x.branch;
    match head_id(m, root) {
        None => Done { m, s, status: 1 },
        Some(tip) => match reference_written(m, root, name, tip) {
            (m1, Err(_)) => Done {
                m: m1,
                s: complained(s, "git rebase: cannot update "@ + name + "\n"@),
                status: 1,
            },
            (m1, Ok(())) => match head_on_branch(
                m1,
                root,
                x.branch,
                "rebase (finish): returning to "@ + name,
            ) {
                (m2, Err(e)) => failed(m2, s, write_message("HEAD"@, e)),
                (m2, Ok(())) => Done {
                    m: rebase_cleared(m2, root),
                    s: printed(
                        s,
                        "Successfully rebased and updated refs/heads/"@ + x.branch + ".\n"@,
                    ),
                    status: 0,
                },
            },
        },
    }
}

fn land(system: &mut System, root: &str, x: &State, io: &mut Io) -> (r: i32)
    ensures
        done(final(system)@, final(io)@, r) == rebase_landed(old(system)@, old(io)@, root@, x@),
{
    let tip = match head_commit(system, root) {
        Some(tip) => tip,
        None => return 1,
    };
    let name = join2("refs/heads/", x.branch.as_str());
    match write_reference(system, root, name.as_str(), tip.as_str()) {
        Ok(()) => {},
        Err(_) => {
            io.print_err(join3("git rebase: cannot update ", name.as_str(), "\n").as_str());
            return 1;
        },
    }
    let action = join2("rebase (finish): returning to ", name.as_str());
    match set_head_to_branch(system, root, x.branch.as_str(), action.as_str()) {
        Ok(()) => {},
        Err(e) => return cannot_write(io, "HEAD", &e),
    }
    clear_rebase(system, root);
    io.print(
        join3(
            "Successfully rebased and updated refs/heads/",
            x.branch.as_str(),
            ".\n",
        ).as_str(),
    );
    0
}

/// Replaying all that is left.
pub open spec fn all_rebased(m: Machine, s: Screen, root: Seq<char>, x: Rebase) -> Done
    decreases x.todo.len(),
{
    if x.todo.len() == 0 {
        rebase_landed(m, s, root, x)
    } else {
        let d = one_rebased(m, s, root, x);
        if d.status != 0 {
            d
        } else {
            let rest = Rebase { todo: x.todo.skip(1), ..x };
            let (n, ok) = rebase_stored(d.m, root, rest);
            if !ok {
                Done { m: n, s: d.s, status: 1 }
            } else {
                all_rebased(n, d.s, root, rest)
            }
        }
    }
}

fn replay(system: &mut System, root: &str, state: State, io: &mut Io) -> (r: i32)
    ensures
        done(final(system)@, final(io)@, r) == all_rebased(
            old(system)@,
            old(io)@,
            root@,
            state@,
        ),
{
    let mut x = state;
    let ghost goal = all_rebased(system@, io@, root@, x@);
    while x.todo.len() > 0
        invariant
            goal == all_rebased(old(system)@, old(io)@, root@, state@),
            goal == all_rebased(system@, io@, root@, x@),
        decreases x.todo@.len(),
    {
        let ghost before = x@;
        assert(before.todo.len() == x.todo@.len());
        let status = replay_first(system, root, &x, io);
        if status != 0 {
            return status;
        }
        x.todo.remove(0);
        assert(x@ =~= Rebase { todo: before.todo.skip(1), ..before });
        if !store_rebase(system, root, &x) {
            return 1;
        }
    }
    assert(x@.todo.len() == x.todo@.len());
    land(system, root, &x, io)
}

// ---------------------------------------------------------------------------
// Carrying on and giving up
// ---------------------------------------------------------------------------

/// The state without the commit that is in progress.
pub open spec fn without_first(x: Rebase) -> Rebase {
    if x.todo.len() > 0 {
        Rebase { todo: x.todo.skip(1), ..x }
    } else {
        x
    }
}

fn drop_first(x: State) -> (r: State)
    ensures
        r@ == without_first(x@),
{
    let mut x = x;
    let ghost before = x@;
    assert(before.todo.len() == x.todo@.len());
    if x.todo.len() > 0 {
        x.todo.remove(0);
        assert(x@ =~= Rebase { todo: before.todo.skip(1), ..before });
    }
    x
}

/// Recording the commit that the user has settled, where the index holds anything new.
pub open spec fn settled_recorded(m: Machine, s: Screen, root: Seq<char>, n: Note) -> Done {
    match index_needed(m, s, root) {
        (t, Err(e)) => Done { m, s: t, status: e },
        (t, Ok(staged)) => {
            let head = head_files(m, root);
            if staged == head {
                Done { m, s: t, status: 0 }
            } else {
                let d = replay_recorded(m, t, root, n, staged, "continue"@);
                if d.status != 0 {
                    d
                } else {
                    Done {
                        s: printed(
                            d.s,
                            "[detached HEAD "@ + short_id(replayed_id(m, root, n, staged)) + "] "@
                                + subject_of(n.message) + "\n"@ + commit_summary(
                                d.m,
                                root,
                                head,
                                staged,
                            ),
                        ),
                        ..d
                    }
                }
            }
        },
    }
}

fn record_settled(system: &mut System, root: &str, original: &Commit, io: &mut Io) -> (r: i32)
    ensures
        done(final(system)@, final(io)@, r) == settled_recorded(
            old(system)@,
            old(io)@,
            root@,
            original@,
        ),
{
    let staged = match require_index(system, root, io) {
        Ok(t) => t,
        Err(e) => return e,
    };
    let head = head_tree(system, root);
    if same_tree(&staged, &head) {
        return 0;
    }
    let id = match record(system, root, original, &staged, "continue", io) {
        Ok(id) => id,
        Err(e) => return e,
    };
    let mut out = join5(
        "[detached HEAD ",
        short(id.as_str()).as_str(),
        "] ",
        original.subject().as_str(),
        "\n",
    );
    out.append(render_commit_summary(system, root, &head, &staged).as_str());
    io.print(out.as_str());
    0
}

/// Storing what is left and replaying it.
pub open spec fn stored_and_rebased(m: Machine, s: Screen, root: Seq<char>, x: Rebase) -> Done {
    let (n, ok) = rebase_stored(m, root, x);
    if !ok {
        Done { m: n, s, status: 1 }
    } else {
        all_rebased(n, s, root, x)
    }
}

fn store_and_replay(system: &mut System, root: &str, x: State, io: &mut Io) -> (r: i32)
    ensures
        done(final(system)@, final(io)@, r) == stored_and_rebased(
            old(system)@,
            old(io)@,
            root@,
            x@,
        ),
{
    if !store_rebase(system, root, &x) {
        return 1;
    }
    replay(system, root, x, io)
}

/// `git rebase --continue`.
pub open spec fn rebase_resumed(m: Machine, s: Screen, root: Seq<char>) -> Done {
    match rebase_of(m, root) {
        None => failed(m, s, "No rebase in progress?"@),
        Some(x) => if conflicts_of(m, root).len() > 0 {
            Done {
                m,
                s: complained(
                    s,
                    "error: you have unmerged paths\nhint: Mark them resolved with \"git add/rm <pathspec>\".\n"@,
                ),
                status: 1,
            }
        } else if x.todo.len() == 0 {
            Done { m: rebase_cleared(m, root), s, status: 0 }
        } else {
            match commit_of(m, root, x.todo[0]) {
                None => Done { m, s, status: 128 },
                Some(n) => {
                    let d = settled_recorded(m, s, root, n);
                    if d.status != 0 {
                        d
                    } else {
                        stored_and_rebased(cleared(d.m, root), d.s, root, without_first(x))
                    }
                },
            }
        },
    }
}

fn resume(system: &mut System, root: &str, io: &mut Io) -> (r: i32)
    ensures
        done(final(system)@, final(io)@, r) == rebase_resumed(old(system)@, old(io)@, root@),
{
    let x = match load_rebase(system, root) {
        Some(x) => x,
        None => return fatal(io, "No rebase in progress?"),
    };
    if !load_stages(system, root).is_empty() {
        io.print_err(
            "error: you have unmerged paths\nhint: Mark them resolved with \"git add/rm <pathspec>\".\n",
        );
        return 1;
    }
    assert(x@.todo.len() == x.todo@.len());
    if x.todo.len() == 0 {
        clear_rebase(system, root);
        return 0;
    }
    assert(x@.todo[0] == x.todo@[0]@);
    let original = match load_commit(system, root, x.todo[0].as_str()) {
        Some(c) => c,
        None => return 128,
    };
    let status = record_settled(system, root, &original, io);
    if status != 0 {
        return status;
    }
    clear(system, root);
    let rest = drop_first(x);
    store_and_replay(system, root, rest, io)
}

/// `git rebase --skip`.
pub open spec fn rebase_skipped(m: Machine, s: Screen, root: Seq<char>) -> Done {
    match rebase_of(m, root) {
        None => failed(m, s, "No rebase in progress?"@),
        Some(x) => match head_id(m, root) {
            None => Done { m, s, status: 1 },
            Some(head) => {
                let d = laid_down(cleared(m, root), s, root, head);
                if d.status != 0 {
                    d
                } else {
                    stored_and_rebased(d.m, d.s, root, without_first(x))
                }
            },
        },
    }
}

fn skip(system: &mut System, root: &str, io: &mut Io) -> (r: i32)
    ensures
        done(final(system)@, final(io)@, r) == rebase_skipped(old(system)@, old(io)@, root@),
{
    let x = match load_rebase(system, root) {
        Some(x) => x,
        None => return fatal(io, "No rebase in progress?"),
    };
    let head = match head_commit(system, root) {
        Some(head) => head,
        None => return 1,
    };
    clear(system, root);
    let status = lay_down(system, root, head.as_str(), io);
    if status != 0 {
        return status;
    }
    let rest = drop_first(x);
    store_and_replay(system, root, rest, io)
}

/// `git rebase --abort`.
pub open spec fn rebase_aborted(m: Machine, s: Screen, root: Seq<char>) -> Done {
    match rebase_of(m, root) {
        None => failed(m, s, "No rebase in progress?"@),
        Some(x) => {
            let d = laid_down(m, s, root, x.original);
            let name = "refs/heads/"@ + x.branch;
            if d.status != 0 {
                d
            } else {
                match reference_written(d.m, root, name, x.original) {
                    (m1, Err(e)) => failed(m1, d.s, write_message(name, e)),
                    (m1, Ok(())) => match head_on_branch(
                        m1,
                        root,
                        x.branch,
                        "rebase (abort): returning to "@ + name,
                    ) {
                        (m2, Err(e)) => failed(m2, d.s, write_message("HEAD"@, e)),
                        (m2, Ok(())) => Done { m: rebase_cleared(m2, root), s: d.s, status: 0 },
                    },
                }
            }
        },
    }
}

fn abort(system: &mut System, root: &str, io: &mut Io) -> (r: i32)
    ensures
        done(final(system)@, final(io)@, r) == rebase_aborted(old(system)@, old(io)@, root@),
{
    let x = match load_rebase(system, root) {
        Some(x) => x,
        None => return fatal(io, "No rebase in progress?"),
    };
    let status = lay_down(system, root, x.original.as_str(), io);
    if status != 0 {
        return status;
    }
    let name = join2("refs/heads/", x.branch.as_str());
    match write_reference(system, root, name.as_str(), x.original.as_str()) {
        Ok(()) => {},
        Err(e) => return cannot_write(io, name.as_str(), &e),
    }
    let action = join2("rebase (abort): returning to ", name.as_str());
    match set_head_to_branch(system, root, x.branch.as_str(), action.as_str()) {
        Ok(()) => {},
        Err(e) => return cannot_write(io, "HEAD", &e),
    }
    clear_rebase(system, root);
    0
}

// ---------------------------------------------------------------------------
// git rebase
// ---------------------------------------------------------------------------

/// What the options of `git rebase` ask for.
pub struct RebaseAsk {
    pub onto: Option<String>,
}

/// What is asked of `git rebase`.
#[verifier::ext_equal]
pub struct RebaseWish {
    pub onto: Option<Seq<char>>,
}

impl View for RebaseAsk {
    type V = RebaseWish;

    open spec fn view(&self) -> RebaseWish {
        RebaseWish { onto: opt_text(self.onto) }
    }
}

impl Talk for RebaseAsk {
    open spec fn wants(name: Seq<char>) -> Want {
        if name == "--onto"@ {
            Want::Needed
        } else {
            Want::Attached
        }
    }

    open spec fn with(
        m: Machine,
        root: Seq<char>,
        asked: RebaseWish,
        name: Seq<char>,
        value: Option<Seq<char>>,
    ) -> Result<RebaseWish, Stop> {
        if name == "--continue"@ || name == "--abort"@ || name == "--skip"@ || name == "-i"@
            || name == "--interactive"@ {
            Err(Stop::Act(name))
        } else if name == "-q"@ || name == "--quiet"@ || name == "--no-verify"@ || name
            == "--no-autostash"@ {
            Ok(asked)
        } else if name == "--onto"@ {
            match value {
                Some(v) => Ok(RebaseWish { onto: Some(v) }),
                None => Err(Stop::Wrong("--onto requires a revision"@)),
            }
        } else {
            Err(Stop::Wrong("unsupported rebase option: "@ + name))
        }
    }

    fn wanted(name: &str) -> (r: Want) {
        if same(name, "--onto") {
            Want::Needed
        } else {
            Want::Attached
        }
    }

    fn apply(&mut self, system: &System, root: &str, name: &str, value: Option<String>) -> (r: Result<
        (),
        Halt,
    >) {
        if same(name, "--continue") || same(name, "--abort") || same(name, "--skip") || same(
            name,
            "-i",
        ) || same(name, "--interactive") {
            return Err(Halt::Act(copy_text(name)));
        } else if same(name, "-q") || same(name, "--quiet") || same(name, "--no-verify") || same(
            name,
            "--no-autostash",
        ) {
        } else if same(name, "--onto") {
            match value {
                Some(v) => self.onto = Some(v),
                None => return Err(Halt::Wrong(copy_text("--onto requires a revision"))),
            }
        } else {
            return Err(Halt::Wrong(join2("unsupported rebase option: ", name)));
        }
        Ok(())
    }
}

/// What an option that is carried out at once does.
pub open spec fn rebase_acted(m: Machine, s: Screen, root: Seq<char>, option: Seq<char>) -> Done {
    if option == "--continue"@ {
        rebase_resumed(m, s, root)
    } else if option == "--abort"@ {
        rebase_aborted(m, s, root)
    } else if option == "--skip"@ {
        rebase_skipped(m, s, root)
    } else {
        failed(m, s, "interactive rebase is not supported here"@)
    }
}

/// Where a branch goes.
pub struct Route {
    /// What the branch is measured against.
    pub upstream: Seq<char>,
    /// The commit that it goes onto.
    pub onto: Seq<char>,
    /// What that commit was called.
    pub base_name: Seq<char>,
}

/// Starting the replay: the new base is laid down and HEAD is detached from the branch, which keeps
/// its old tip until the replay is done.
pub open spec fn replay_begun(
    m: Machine,
    s: Screen,
    root: Seq<char>,
    w: Route,
    branch: Seq<char>,
    head: Seq<char>,
    todo: Seq<Seq<char>>,
) -> Done {
    let d = laid_down(orig_head_recorded(m, root), s, root, w.onto);
    if d.status != 0 {
        d
    } else if todo.len() == 0 {
        match head_updated(
            d.m,
            root,
            w.onto,
            "rebase (finish): returning to refs/heads/"@ + branch,
        ) {
            (n, Err(e)) => failed(n, d.s, write_message("HEAD"@, e)),
            (n, Ok(())) => Done {
                m: n,
                s: printed(
                    d.s,
                    "Successfully rebased and updated refs/heads/"@ + branch + ".\n"@,
                ),
                status: 0,
            },
        }
    } else {
        match head_detached(d.m, root, w.onto, "rebase (start): checkout "@ + w.base_name) {
            (n, Err(e)) => failed(n, d.s, write_message("HEAD"@, e)),
            (n, Ok(())) => stored_and_rebased(
                n,
                d.s,
                root,
                Rebase { branch, original: head, onto: w.onto, todo },
            ),
        }
    }
}

fn begin_replay(
    system: &mut System,
    root: &str,
    onto: &str,
    base_name: &str,
    upstream: &str,
    branch: String,
    head: String,
    todo: Vec<String>,
    io: &mut Io,
) -> (r: i32)
    ensures
        done(final(system)@, final(io)@, r) == replay_begun(
            old(system)@,
            old(io)@,
            root@,
            (Route { upstream: upstream@, onto: onto@, base_name: base_name@ }),
            branch@,
            head@,
            texts(todo@),
        ),
{
    record_orig_head(system, root);
    let status = lay_down(system, root, onto, io);
    if status != 0 {
        return status;
    }
    assert(texts(todo@).len() == todo@.len());
    if todo.len() == 0 {
        let action = join2("rebase (finish): returning to refs/heads/", branch.as_str());
        match update_head(system, root, onto, action.as_str()) {
            Ok(()) => {},
            Err(e) => return cannot_write(io, "HEAD", &e),
        }
        io.print(
            join3(
                "Successfully rebased and updated refs/heads/",
                branch.as_str(),
                ".\n",
            ).as_str(),
        );
        return 0;
    }
    let action = join2("rebase (start): checkout ", base_name);
    match set_head_detached(system, root, onto, action.as_str()) {
        Ok(()) => {},
        Err(e) => return cannot_write(io, "HEAD", &e),
    }
    let x = State { branch, original: head, onto: copy_text(onto), todo };
    store_and_replay(system, root, x, io)
}

/// Rebasing the branch that is checked out. Nothing is left to do where the upstream is already
/// behind it, unless it goes somewhere else.
pub open spec fn branch_rebased(m: Machine, s: Screen, root: Seq<char>, w: Route) -> Done {
    match branch_of(m, root) {
        None => failed(m, s, "rebasing a detached HEAD is not supported here"@),
        Some(branch) => match head_id(m, root) {
            None => failed(m, s, "no commit on the current branch to rebase"@),
            Some(head) => {
                let todo = to_replay(m, root, head, w.upstream);
                let settled = w.onto == w.upstream && shared_base(m, root, head, w.upstream)
                    == Some(w.upstream);
                if settled || (todo.len() == 0 && head == w.onto) {
                    Done {
                        m,
                        s: printed(s, "Current branch "@ + branch + " is up to date.\n"@),
                        status: 0,
                    }
                } else {
                    replay_begun(m, s, root, w, branch, head, todo)
                }
            },
        },
    }
}

fn is_id(o: &Option<String>, id: &str) -> (r: bool)
    ensures
        r == (opt_text(*o) == Some(id@)),
{
    match o {
        Some(s) => same(s.as_str(), id),
        None => false,
    }
}

fn rebase_branch(
    system: &mut System,
    root: &str,
    onto: &str,
    base_name: &str,
    upstream: &str,
    io: &mut Io,
) -> (r: i32)
    ensures
        done(final(system)@, final(io)@, r) == branch_rebased(
            old(system)@,
            old(io)@,
            root@,
            (Route { upstream: upstream@, onto: onto@, base_name: base_name@ }),
        ),
{
    let branch = match current_branch(system, root) {
        Some(b) => b,
        None => return fatal(io, "rebasing a detached HEAD is not supported here"),
    };
    let head = match head_commit(system, root) {
        Some(head) => head,
        None => return fatal(io, "no commit on the current branch to rebase"),
    };
    let settled = same(onto, upstream) && is_id(
        &merge_base(system, root, head.as_str(), upstream),
        upstream,
    );
    let todo = commits_to_replay(system, root, head.as_str(), upstream);
    assert(texts(todo@).len() == todo@.len());
    if settled || (todo.len() == 0 && same(head.as_str(), onto)) {
        io.print(join3("Current branch ", branch.as_str(), " is up to date.\n").as_str());
        return 0;
    }
    begin_replay(system, root, onto, base_name, upstream, branch, head, todo, io)
}

/// The complaint about work that is not committed.
pub open spec fn rebase_blocked(t: Trio) -> Seq<char> {
    "error: cannot rebase: "@ + (if all_staged(t, dirty(t)) {
        "Your index contains uncommitted changes."@
    } else {
        "You have unstaged changes."@
    }) + "\nerror: Please commit or stash them.\n"@
}

/// Rebasing once its ends are known. Work that is not committed has nowhere to go, so it is refused.
pub open spec fn rebase_carried_out(
    m: Machine,
    s: Screen,
    root: Seq<char>,
    w: Route,
    branch: Option<Seq<char>>,
) -> Done {
    match trio_read(m, s, root) {
        (n, t, Err(e)) => Done { m: n, s: t, status: e },
        (n, t, Ok(trio)) => if dirty(trio).len() > 0 {
            Done { m: n, s: complained(t, rebase_blocked(trio)), status: 1 }
        } else {
            match branch {
                None => branch_rebased(n, t, root, w),
                Some(b) => {
                    let d = switched_to(n, t, root, b, false);
                    if d.status != 0 {
                        d
                    } else {
                        branch_rebased(d.m, d.s, root, w)
                    }
                },
            }
        },
    }
}

fn carry_out_rebase(
    system: &mut System,
    root: &str,
    onto: &str,
    base_name: &str,
    upstream: &str,
    branch: &Option<String>,
    io: &mut Io,
) -> (r: i32)
    ensures
        done(final(system)@, final(io)@, r) == rebase_carried_out(
            old(system)@,
            old(io)@,
            root@,
            (Route { upstream: upstream@, onto: onto@, base_name: base_name@ }),
            opt_text(*branch),
        ),
{
    let trio = match snapshot(system, root, io) {
        Ok(x) => x,
        Err(e) => return e,
    };
    let v = dirty_paths(&trio);
    assert(texts(v@).len() == v@.len());
    if v.len() > 0 {
        io.print_err(
            join3(
                "error: cannot rebase: ",
                if only_staged(&trio, v.as_slice()) {
                    "Your index contains uncommitted changes."
                } else {
                    "You have unstaged changes."
                },
                "\nerror: Please commit or stash them.\n",
            ).as_str(),
        );
        return 1;
    }
    if let Some(b) = branch {
        let status = switch_to_branch(system, root, b.as_str(), false, io);
        if status != 0 {
            return status;
        }
    }
    rebase_branch(system, root, onto, base_name, upstream, io)
}

/// `git rebase` in a repository.
pub open spec fn rebase_within(m: Machine, s: Screen, root: Seq<char>, x: RebaseWish, v: Seq<Seq<char>>) -> Done {
    if rebase_of(m, root) is Some {
        failed(
            m,
            s,
            "a rebase is already in progress\nhint: try \"git rebase --continue\" or \"git rebase --abort\""@,
        )
    } else if v.len() != 1 && v.len() != 2 {
        misused(m, s, "usage: git rebase [--onto NEWBASE] UPSTREAM [BRANCH]"@)
    } else {
        match revision(m, root, v[0]) {
            None => failed(m, s, "invalid upstream '"@ + v[0] + "'"@),
            Some(upstream) => {
                let branch = if v.len() == 2 {
                    Some(v[1])
                } else {
                    None
                };
                match x.onto {
                    None => rebase_carried_out(
                        m,
                        s,
                        root,
                        Route { upstream, onto: upstream, base_name: v[0] },
                        branch,
                    ),
                    Some(name) => match revision(m, root, name) {
                        None => failed(m, s, "invalid reference '"@ + name + "'"@),
                        Some(onto) => rebase_carried_out(
                            m,
                            s,
                            root,
                            Route { upstream, onto, base_name: name },
                            branch,
                        ),
                    },
                }
            },
        }
    }
}

/// `git rebase`.
pub open spec fn rebase_done(m: Machine, s: Screen, args: Seq<Seq<char>>) -> Done {
    match repo_root(m) {
        None => no_repo(m, s),
        Some(root) => match talk_read::<RebaseAsk>(
            m,
            root,
            pass_for(args, ""@, ""@),
            RebaseWish { onto: None },
            seq![],
        ) {
            Err(Stop::Act(option)) => rebase_acted(m, s, root, option),
            Err(e) => stopped(m, s, e),
            Ok((x, v)) => rebase_within(m, s, root, x, v),
        },
    }
}

fn act_rebase(system: &mut System, root: &str, option: &str, io: &mut Io) -> (r: i32)
    ensures
        done(final(system)@, final(io)@, r) == rebase_acted(
            old(system)@,
            old(io)@,
            root@,
            option@,
        ),
{
    if same(option, "--continue") {
        resume(system, root, io)
    } else if same(option, "--abort") {
        abort(system, root, io)
    } else if same(option, "--skip") {
        skip(system, root, io)
    } else {
        fatal(io, "interactive rebase is not supported here")
    }
}

fn start_rebase(system: &mut System, root: &str, x: &RebaseAsk, v: &[String], io: &mut Io) -> (r: i32)
    ensures
        done(final(system)@, final(io)@, r) == rebase_within(
            old(system)@,
            old(io)@,
            root@,
            x@,
            texts(v@),
        ),
{
    let ghost all = texts(v@);
    let n: usize = v.len();
    assert(all.len() == n);
    assert(forall|k: int| 0 <= k < n ==> all[k] == #[trigger] v@[k]@);
    if load_rebase(system, root).is_some() {
        return fatal(
            io,
            "a rebase is already in progress\nhint: try \"git rebase --continue\" or \"git rebase --abort\"",
        );
    }
    if n != 1 && n != 2 {
        return usage(io, "usage: git rebase [--onto NEWBASE] UPSTREAM [BRANCH]");
    }
    let upstream = match resolve_revision(system, root, v[0].as_str()) {
        Some(id) => id,
        None => return fatal(io, join3("invalid upstream '", v[0].as_str(), "'").as_str()),
    };
    let branch = if n == 2 {
        Some(copy_text(v[1].as_str()))
    } else {
        None
    };
    match &x.onto {
        None => carry_out_rebase(
            system,
            root,
            upstream.as_str(),
            v[0].as_str(),
            upstream.as_str(),
            &branch,
            io,
        ),
        Some(name) => match resolve_revision(system, root, name.as_str()) {
            None => fatal(io, join3("invalid reference '", name.as_str(), "'").as_str()),
            Some(onto) => carry_out_rebase(
                system,
                root,
                onto.as_str(),
                name.as_str(),
                upstream.as_str(),
                &branch,
                io,
            ),
        },
    }
}

/// `git rebase`: replays a branch onto another commit.
pub fn git_rebase(system: &mut System, args: &[String], io: &mut Io) -> (r: i32)
    ensures
        done(final(system)@, final(io)@, r) == rebase_done(old(system)@, old(io)@, texts(args@)),
{
    let root = match find_repo_root(system) {
        Some(root) => root,
        None => return repo_error(io),
    };
    let start = RebaseAsk { onto: None };
    assert(start@ =~= (RebaseWish { onto: None }));
    let (x, v) = match read_talk(system, root.as_str(), flags_for(args, "", ""), start) {
        Ok(words) => words,
        Err(Halt::Act(option)) => {
            return act_rebase(system, root.as_str(), option.as_str(), io);
        },
        Err(e) => {
            assert(stopped(system@, io@, e@).m == system@);
            return e.report(io);
        },
    };
    start_rebase(system, root.as_str(), &x, v.as_slice(), io)
}

/// A rebase that work which is not committed stands in the way of moves nothing.
pub proof fn lemma_rebase_keeps_work(
    m: Machine,
    s: Screen,
    root: Seq<char>,
    w: Route,
    branch: Option<Seq<char>>,
    n: Machine,
    t: Screen,
    trio: Trio,
)
    requires
        trio_read(m, s, root) == (n, t, Ok::<Trio, int>(trio)),
        dirty(trio).len() > 0,
    ensures
        rebase_carried_out(m, s, root, w, branch).m == n,
        rebase_carried_out(m, s, root, w, branch).status == 1,
{
}

} // verus!
