//! Operations that stop for conflicts: recording them, giving them up, and finishing them.

use vstd::prelude::*;

use crate::committing::{commit_done, git_commit};
use crate::common::{done, index_needed, require_index};
use crate::configuration::{Globals, Overrides};
use crate::console::{
    cannot_write, complained, failed, fatal, write_message, Done, Io, Screen,
};
use crate::names::{overlaid, overlay};
use crate::progress::{pending, pending_operation};
use crate::repo::{head_files, head_tree, index_stored, store_index};
use crate::stages::{
    begin, begun, clear, cleared, conflicts_of, conflicts_stored, load_stages, store_stages, unmerged_code, Conflicts,
    Sides, Stages, Unmerged,
};
use crate::system::{Machine, System};
use crate::text::{copy_text, join2, join3, join5, same, texts};
use crate::trees::{Files, Tree};
use crate::worktree::{replace_work_tree, tree_written};

verus! {

/// An operation that stops for conflicts.
pub struct Paused<'a> {
    /// The file that records the operation.
    pub kind: &'a str,
    /// The commit that is brought in.
    pub commit: &'a str,
    /// The message that the finished commit carries.
    pub message: &'a str,
    /// What the other side is called.
    pub theirs_label: &'a str,
    /// How to carry on.
    pub advice: &'a str,
}

/// An operation that stops for conflicts.
pub struct Pause {
    pub kind: Seq<char>,
    pub commit: Seq<char>,
    pub message: Seq<char>,
    pub theirs_label: Seq<char>,
    pub advice: Seq<char>,
}

impl View for Paused<'_> {
    type V = Pause;

    open spec fn view(&self) -> Pause {
        Pause {
            kind: self.kind@,
            commit: self.commit@,
            message: self.message@,
            theirs_label: self.theirs_label@,
            advice: self.advice@,
        }
    }
}

/// The line about one path that is left to the user.
pub open spec fn conflict_line(path: Seq<char>, u: Sides, label: Seq<char>) -> Seq<char> {
    let code = unmerged_code(u);
    if code == "UD"@ {
        "CONFLICT (modify/delete): "@ + path + " deleted in "@ + label
            + " and modified in HEAD.  Version HEAD of "@ + path + " left in tree.\n"@
    } else if code == "DU"@ {
        "CONFLICT (modify/delete): "@ + path + " deleted in HEAD and modified in "@ + label
            + ".  Version "@ + label + " of "@ + path + " left in tree.\n"@
    } else if code == "AA"@ {
        "CONFLICT (add/add): Merge conflict in "@ + path + "\n"@
    } else {
        "CONFLICT (content): Merge conflict in "@ + path + "\n"@
    }
}

/// The lines about the paths that are left to the user.
pub open spec fn conflict_lines(c: Conflicts, label: Seq<char>) -> Seq<char>
    decreases c.len(),
{
    if c.len() == 0 {
        ""@
    } else {
        conflict_lines(c.drop_last(), label) + conflict_line(c.last().0, c.last().1, label)
    }
}

fn write_conflict(path: &str, u: &Unmerged, label: &str) -> (r: String)
    ensures
        r@ == conflict_line(path@, u@, label@),
{
    let code = u.porcelain();
    if same(code, "UD") {
        let mut out = join5(
            "CONFLICT (modify/delete): ",
            path,
            " deleted in ",
            label,
            " and modified in HEAD.  Version HEAD of ",
        );
        out.append(path);
        out.append(" left in tree.\n");
        out
    } else if same(code, "DU") {
        let mut out = join5(
            "CONFLICT (modify/delete): ",
            path,
            " deleted in HEAD and modified in ",
            label,
            ".  Version ",
        );
        out.append(label);
        out.append(" of ");
        out.append(path);
        out.append(" left in tree.\n");
        out
    } else if same(code, "AA") {
        join3("CONFLICT (add/add): Merge conflict in ", path, "\n")
    } else {
        join3("CONFLICT (content): Merge conflict in ", path, "\n")
    }
}

fn write_conflicts(stages: &Stages, label: &str) -> (r: String)
    ensures
        r@ == conflict_lines(stages@, label@),
{
    let ghost all = stages@;
    let mut out = copy_text("");
    let mut i: usize = 0;
    while i < stages.len()
        invariant
            i <= all.len(),
            all == stages@,
            out@ == conflict_lines(all.take(i as int), label@),
        decreases all.len() - i,
    {
        assert(all.take(i + 1).drop_last() =~= all.take(i as int));
        out.append(write_conflict(stages.key_at(i), stages.value_at(i), label).as_str());
        i += 1;
    }
    assert(all.take(i as int) =~= all);
    out
}

/// Recording an operation that stops for conflicts, and naming the paths.
pub open spec fn paused(m: Machine, s: Screen, root: Seq<char>, p: Pause, c: Conflicts) -> Done {
    let t = complained(s, conflict_lines(c, p.theirs_label));
    let (m1, a) = begun(m, root, p.kind, p.commit, p.message);
    if !a {
        failed(m1, t, "unable to record the conflicted state"@)
    } else {
        let (m2, b) = conflicts_stored(m1, root, c);
        if !b {
            failed(m2, t, "unable to record the conflicted state"@)
        } else {
            Done { m: m2, s: complained(t, p.advice + "\n"@), status: 1 }
        }
    }
}

/// Records an operation that stops for conflicts, and names the paths.
pub fn pause_for_conflicts(
    system: &mut System,
    root: &str,
    p: &Paused<'_>,
    stages: &Stages,
    io: &mut Io,
) -> (r: i32)
    ensures
        done(final(system)@, final(io)@, r) == paused(
            old(system)@,
            old(io)@,
            root@,
            p@,
            stages@,
        ),
{
    io.print_err(write_conflicts(stages, p.theirs_label).as_str());
    if !begin(system, root, p.kind, p.commit, p.message) {
        return fatal(io, "unable to record the conflicted state");
    }
    if !store_stages(system, root, stages) {
        return fatal(io, "unable to record the conflicted state");
    }
    io.print_err(join2(p.advice, "\n").as_str());
    1
}

/// Putting the index and the files back to a tree, whatever the index and HEAD hold.
pub open spec fn put_back(m: Machine, s: Screen, root: Seq<char>, name: Seq<char>, target: Files) -> Done {
    match index_needed(m, s, root) {
        (t, Err(e)) => Done { m, s: t, status: e },
        (t, Ok(index)) => match tree_written(
            m,
            root,
            overlaid(head_files(m, root), index),
            target,
            true,
        ) {
            (m1, Err(e)) => Done {
                m: m1,
                s: complained(t, "git "@ + name + ": "@ + e + "\n"@),
                status: 1,
            },
            (m1, Ok(())) => match index_stored(m1, root, target) {
                (m2, Err(e)) => failed(m2, t, write_message("the index"@, e)),
                (m2, Ok(())) => Done { m: m2, s: t, status: 0 },
            },
        },
    }
}

/// Puts the index and the files back to a tree.
pub fn put_tree_back(system: &mut System, root: &str, name: &str, target: &Tree, io: &mut Io) -> (r: i32)
    ensures
        done(final(system)@, final(io)@, r) == put_back(
            old(system)@,
            old(io)@,
            root@,
            name@,
            target@,
        ),
{
    let index = match require_index(system, root, io) {
        Ok(t) => t,
        Err(e) => return e,
    };
    let mut previous = head_tree(system, root);
    overlay(&mut previous, &index);
    match replace_work_tree(system, root, &previous, target) {
        Ok(()) => {},
        Err(e) => {
            io.print_err(join5("git ", name, ": ", e.as_str(), "\n").as_str());
            return 1;
        },
    }
    match store_index(system, root, target) {
        Ok(()) => 0,
        Err(e) => cannot_write(io, "the index", &e),
    }
}

/// The complaint that nothing is in progress.
pub open spec fn none_in_progress(m: Machine, s: Screen, name: Seq<char>, option: Seq<char>) -> Done {
    failed(m, s, "There is no "@ + name + " in progress ("@ + name + option)
}

fn report_none_in_progress(name: &str, option: &str, io: &mut Io) -> (r: i32)
    ensures
        forall|m: Machine|
            #![trigger none_in_progress(m, old(io)@, name@, option@)]
            done(m, final(io)@, r) == none_in_progress(m, old(io)@, name@, option@),
{
    fatal(io, join5("There is no ", name, " in progress (", name, option).as_str())
}

/// Giving up an operation that is not finished.
pub open spec fn pending_aborted(m: Machine, s: Screen, root: Seq<char>, name: Seq<char>) -> Done {
    if pending(m, root) is None {
        none_in_progress(m, s, name, " --abort)."@)
    } else {
        let d = put_back(m, s, root, name, head_files(m, root));
        if d.status != 0 {
            d
        } else {
            Done { m: cleared(d.m, root), ..d }
        }
    }
}

/// Gives up an operation that is not finished.
pub fn abort_pending(system: &mut System, root: &str, name: &str, io: &mut Io) -> (r: i32)
    ensures
        done(final(system)@, final(io)@, r) == pending_aborted(
            old(system)@,
            old(io)@,
            root@,
            name@,
        ),
{
    if pending_operation(system, root).is_none() {
        assert(none_in_progress(system@, io@, name@, " --abort)."@).m == system@);
        return report_none_in_progress(name, " --abort).", io);
    }
    let head = head_tree(system, root);
    let status = put_tree_back(system, root, name, &head, io);
    if status != 0 {
        return status;
    }
    clear(system, root);
    0
}

/// Finishing an operation whose conflicts are resolved.
pub open spec fn pending_continued(m: Machine, s: Screen, root: Seq<char>, g: Overrides, name: Seq<char>) -> Done {
    if pending(m, root) is None {
        none_in_progress(m, s, name, " --continue)."@)
    } else if conflicts_of(m, root).len() > 0 {
        Done {
            m,
            s: complained(
                s,
                "error: Committing is not possible because you have unmerged files.\n"@,
            ),
            status: 1,
        }
    } else {
        commit_done(m, s, g, seq!["--no-edit"@])
    }
}

/// Finishes an operation whose conflicts are resolved.
pub fn continue_pending(system: &mut System, root: &str, globals: &Globals, name: &str, io: &mut Io) -> (r: i32)
    ensures
        done(final(system)@, final(io)@, r) == pending_continued(
            old(system)@,
            old(io)@,
            root@,
            globals@,
            name@,
        ),
{
    if pending_operation(system, root).is_none() {
        assert(none_in_progress(system@, io@, name@, " --continue)."@).m == system@);
        return report_none_in_progress(name, " --continue).", io);
    }
    if !load_stages(system, root).is_empty() {
        io.print_err("error: Committing is not possible because you have unmerged files.\n");
        return 1;
    }
    let mut args: Vec<String> = Vec::new();
    args.push(copy_text("--no-edit"));
    assert(texts(args@) =~= seq!["--no-edit"@]);
    git_commit(system, globals, args.as_slice(), io)
}

} // verus!
