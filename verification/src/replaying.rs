//! `git cherry-pick` and `git revert`: applying the change of a commit again, or undoing it.

use vstd::prelude::*;

use crate::combine::{combine, mixed, Combined, Mix};
use crate::committing::{commit_summary, render_commit_summary};
use crate::common::{
    done, parent_needed, parent_tree, require_tree, snapshot, tree_needed, trio_read,
};
use crate::compare::{changed_paths, list_changed};
use crate::configuration::{identity, identity_of, Globals, Overrides};
use crate::console::{
    cannot_write, complained, failed, fatal, misused, no_repo, printed, repo_error, usage, write_message, Done, Io,
    Screen,
};
use crate::dates::{clock_seconds, now_seconds};
use crate::moves::{blocking, blocking_changes};
use crate::names::same_tree;
use crate::numbers::{decimal, format_usize};
use crate::objects::{short, short_id};
use crate::order::{bind, lookup, unbind, Duplicate};
use crate::pausing::{
    abort_pending, continue_pending, pause_for_conflicts, paused, pending_aborted, pending_continued, put_back,
    put_tree_back, Pause, Paused,
};
use crate::progress::{
    load_sequence, opt_nat, pending, pending_operation, run_of, run_stored, store_sequence, Run, Sequence,
};
use crate::records::{subject_of, Commit, Note};
use crate::repo::{
    branch_of, commit_id, commit_of, commit_stored, current_branch, find_repo_root, head_commit, head_id,
    head_updated, index_stored, load_commit, repo_root, store_commit, store_index, update_head,
};
use crate::revisions::{resolve_revision, revision};
use crate::stages::{clear, cleared, drop_file, dropped};
use crate::syntax::{flags_for, pass_for, read_talk, stopped, talk_read, Halt, Stop, Talk, Want};
use crate::system::{Machine, System};
use crate::text::{copy_text, join2, join3, join4, join5, lemma_texts_push, opt_text, same, texts};
use crate::trees::{Files, Tree};
use crate::worktree::{tree_written, update_work_tree};

verus! {

/// The name of the command.
pub open spec fn replay_name(revert: bool) -> Seq<char> {
    if revert {
        "revert"@
    } else {
        "cherry-pick"@
    }
}

/// The name of the command.
pub fn name_of_replay(revert: bool) -> (r: &'static str)
    ensures
        r@ == replay_name(revert),
{
    if revert {
        "revert"
    } else {
        "cherry-pick"
    }
}

// ---------------------------------------------------------------------------
// What is applied
// ---------------------------------------------------------------------------

/// The commit that is applied, and the one that it is applied onto.
pub struct Chosen {
    pub id: String,
    pub commit: Commit,
    pub head: String,
    /// The parent that the change is measured against, counted from one.
    pub against: usize,
}

/// The commit that is applied, and the one that it is applied onto.
#[verifier::ext_equal]
pub struct Pick {
    pub id: Seq<char>,
    pub note: Note,
    pub head: Seq<char>,
    pub against: nat,
}

impl View for Chosen {
    type V = Pick;

    open spec fn view(&self) -> Pick {
        Pick {
            id: self.id@,
            note: self.commit@,
            head: self.head@,
            against: self.against as nat,
        }
    }
}

/// The parent that a change is measured against.
pub open spec fn parent_meant(x: Run) -> nat {
    match x.mainline {
        Some(n) => n,
        None => 1,
    }
}

/// Why a commit cannot be applied as it is asked for: a merge needs a parent that it is measured
/// against, and nothing else may name one.
pub open spec fn parents_refused(x: Run, id: Seq<char>, n: Note) -> Option<Seq<char>> {
    let name = replay_name(x.revert);
    let end = "\nfatal: "@ + name + " failed\n"@;
    if n.parents.len() > 1 && x.mainline is None {
        Some("error: commit "@ + id + " is a merge but no -m option was given."@ + end)
    } else if x.mainline is Some && n.parents.len() < 2 {
        Some("error: mainline was specified but commit "@ + id + " is not a merge."@ + end)
    } else if parent_meant(x) > n.parents.len() && n.parents.len() > 0 {
        Some(
            "error: commit "@ + id + " does not have parent "@ + decimal(parent_meant(x)) + end,
        )
    } else {
        None
    }
}

fn refuse_parents(x: &Sequence, id: &str, commit: &Commit) -> (r: Option<String>)
    ensures
        opt_text(r) == parents_refused(x@, id@, commit@),
{
    assert(commit@.parents.len() == commit.parents@.len());
    let n: usize = commit.parents.len();
    let end = join3("\nfatal: ", name_of_replay(x.revert), " failed\n");
    if n > 1 && x.mainline.is_none() {
        return Some(
            join4(
                "error: commit ",
                id,
                " is a merge but no -m option was given.",
                end.as_str(),
            ),
        );
    }
    if x.mainline.is_some() && n < 2 {
        return Some(
            join4(
                "error: mainline was specified but commit ",
                id,
                " is not a merge.",
                end.as_str(),
            ),
        );
    }
    let against: usize = match x.mainline {
        Some(k) => k,
        None => 1,
    };
    if against > n && n > 0 {
        return Some(
            join5(
                "error: commit ",
                id,
                " does not have parent ",
                format_usize(against).as_str(),
                end.as_str(),
            ),
        );
    }
    None
}

/// The complaint that an operation is not finished.
pub open spec fn in_progress_complaint(name: Seq<char>) -> Seq<char> {
    "error: a "@ + name + " is already in progress\nhint: try \"git "@ + name
        + " --continue\" or \"git "@ + name + " --abort\"\n"@
}

/// The commit that is applied, or how the command ends.
pub open spec fn picked(m: Machine, s: Screen, root: Seq<char>, x: Run, rev: Seq<char>) -> Result<Pick, Done> {
    let name = replay_name(x.revert);
    if pending(m, root) is Some {
        Err(Done { m, s: complained(s, in_progress_complaint(name)), status: 128 })
    } else {
        match revision(m, root, rev) {
            None => Err(failed(m, s, "bad revision '"@ + rev + "'"@)),
            Some(id) => match commit_of(m, root, id) {
                None => Err(failed(m, s, "bad object "@ + rev)),
                Some(n) => match parents_refused(x, id, n) {
                    Some(text) => Err(Done { m, s: complained(s, text), status: 128 }),
                    None => match head_id(m, root) {
                        None => Err(failed(m, s, name + " needs a commit to apply onto"@)),
                        Some(head) => Ok(Pick { id, note: n, head, against: parent_meant(x) }),
                    },
                },
            },
        }
    }
}

/// What choosing the commit gave.
pub open spec fn pick_result(m: Machine, s: Screen, r: Result<Chosen, i32>) -> Result<Pick, Done> {
    match r {
        Ok(c) => Ok(c@),
        Err(e) => Err(done(m, s, e)),
    }
}

fn pick(system: &System, root: &str, x: &Sequence, rev: &str, io: &mut Io) -> (r: Result<Chosen, i32>)
    ensures
        pick_result(system@, final(io)@, r) == picked(system@, old(io)@, root@, x@, rev@),
        r is Ok ==> final(io)@ == old(io)@,
{
    let name = name_of_replay(x.revert);
    if pending_operation(system, root).is_some() {
        let mut out = join5(
            "error: a ",
            name,
            " is already in progress\nhint: try \"git ",
            name,
            " --continue\" or \"git ",
        );
        out.append(name);
        out.append(" --abort\"\n");
        io.print_err(out.as_str());
        return Err(128);
    }
    let id = match resolve_revision(system, root, rev) {
        Some(id) => id,
        None => return Err(fatal(io, join3("bad revision '", rev, "'").as_str())),
    };
    let commit = match load_commit(system, root, id.as_str()) {
        Some(c) => c,
        None => return Err(fatal(io, join2("bad object ", rev).as_str())),
    };
    if let Some(text) = refuse_parents(x, id.as_str(), &commit) {
        io.print_err(text.as_str());
        return Err(128);
    }
    let head = match head_commit(system, root) {
        Some(head) => head,
        None => return Err(fatal(io, join2(name, " needs a commit to apply onto").as_str())),
    };
    let against: usize = match x.mainline {
        Some(k) => k,
        None => 1,
    };
    Ok(Chosen { id, commit, head, against })
}

/// The trees of the commit, of the parent that it is measured against, and of HEAD.
pub struct Sources {
    pub commit: Tree,
    pub parent: Tree,
    pub head: Tree,
}

/// The trees of the commit, of the parent that it is measured against, and of HEAD.
#[verifier::ext_equal]
pub struct Grounds {
    pub commit: Files,
    pub parent: Files,
    pub head: Files,
}

impl View for Sources {
    type V = Grounds;

    open spec fn view(&self) -> Grounds {
        Grounds { commit: self.commit@, parent: self.parent@, head: self.head@ }
    }
}

/// The parent at a place that is counted from one.
pub open spec fn parent_at(parents: Seq<Seq<char>>, n: nat) -> Option<Seq<char>> {
    if 1 <= n <= parents.len() {
        Some(parents[n - 1])
    } else {
        None
    }
}

/// The three trees, or the status to stop with.
pub open spec fn grounds_read(m: Machine, s: Screen, root: Seq<char>, p: Pick) -> (
    Screen,
    Result<Grounds, int>,
) {
    match tree_needed(m, s, root, p.id) {
        (t, Err(e)) => (t, Err(e)),
        (t, Ok(commit)) => match parent_needed(m, t, root, parent_at(p.note.parents, p.against)) {
            (u, Err(e)) => (u, Err(e)),
            (u, Ok(parent)) => match tree_needed(m, u, root, p.head) {
                (w, Err(e)) => (w, Err(e)),
                (w, Ok(head)) => (w, Ok(Grounds { commit, parent, head })),
            },
        },
    }
}

/// What reading the three trees gave.
pub open spec fn grounds_of(r: Result<Sources, i32>) -> Result<Grounds, int> {
    match r {
        Ok(x) => Ok(x@),
        Err(e) => Err(e as int),
    }
}

fn read_grounds(system: &System, root: &str, p: &Chosen, io: &mut Io) -> (r: Result<Sources, i32>)
    ensures
        (final(io)@, grounds_of(r)) == grounds_read(system@, old(io)@, root@, p@),
{
    let commit = match require_tree(system, root, p.id.as_str(), io) {
        Ok(t) => t,
        Err(e) => return Err(e),
    };
    assert(p.commit@.parents.len() == p.commit.parents@.len());
    let parent_id = if p.against >= 1 && p.against <= p.commit.parents.len() {
        assert(p.commit@.parents[p.against - 1] == p.commit.parents@[p.against - 1]@);
        Some(copy_text(p.commit.parents[p.against - 1].as_str()))
    } else {
        None
    };
    let parent = match parent_tree(system, root, &parent_id, io) {
        Ok(t) => t,
        Err(e) => return Err(e),
    };
    let head = match require_tree(system, root, p.head.as_str(), io) {
        Ok(t) => t,
        Err(e) => return Err(e),
    };
    Ok(Sources { commit, parent, head })
}

// ---------------------------------------------------------------------------
// Applying it
// ---------------------------------------------------------------------------

/// The index with the paths in which two trees differ set as the second has them.
pub open spec fn index_touched(index: Files, after: Files, paths: Seq<Seq<char>>) -> Files
    decreases paths.len(),
{
    if paths.len() == 0 {
        index
    } else {
        let rest = index_touched(index, after, paths.drop_last());
        match lookup(after, paths.last()) {
            Some(r) => bind(rest, paths.last(), r),
            None => unbind(rest, paths.last()),
        }
    }
}

fn touch_index(index: &Tree, before: &Tree, after: &Tree) -> (r: Tree)
    ensures
        r@ == index_touched(index@, after@, changed_paths(before@, after@, seq![])),
{
    let none: Vec<String> = Vec::new();
    assert(texts(none@) =~= seq![]);
    let paths = list_changed(before, after, none.as_slice());
    let ghost all = texts(paths@);
    let mut t = index.duplicate();
    let mut i: usize = 0;
    while i < paths.len()
        invariant
            i <= paths@.len(),
            all == texts(paths@),
            t@ == index_touched(index@, after@, all.take(i as int)),
        decreases paths@.len() - i,
    {
        assert(all.take(i + 1).drop_last() =~= all.take(i as int));
        assert(all.take(i + 1).last() == paths@[i as int]@);
        match after.get(paths[i].as_str()) {
            Some(e) => t.insert(copy_text(paths[i].as_str()), e.duplicate()),
            None => t.remove(paths[i].as_str()),
        }
        i += 1;
    }
    assert(all.take(i as int) =~= all);
    t
}

/// The message of the new commit: a revert says what it undoes.
pub open spec fn replay_message(revert: bool, p: Pick) -> Seq<char> {
    if revert {
        "Revert \""@ + subject_of(p.note.message) + "\"\n\nThis reverts commit "@ + p.id + "."@
    } else {
        p.note.message
    }
}

/// What the applied side is called.
pub open spec fn replay_label(p: Pick) -> Seq<char> {
    short_id(p.id) + " ("@ + subject_of(p.note.message) + ")"@
}

/// How to carry on after conflicts.
pub open spec fn replay_advice(name: Seq<char>, label: Seq<char>) -> Seq<char> {
    "error: could not apply "@ + label
        + "\nhint: After resolving the conflicts, mark them with\nhint: \"git add/rm <pathspec>\", then run \"git "@
        + name + " --continue\".\nhint: You can instead skip this commit with \"git "@ + name
        + " --skip\".\nhint: To abort and get back to the state before \"git "@ + name
        + "\",\nhint: run \"git "@ + name + " --abort\"."@
}

fn write_message_of(revert: bool, p: &Chosen) -> (r: String)
    ensures
        r@ == replay_message(revert, p@),
{
    if revert {
        join5(
            "Revert \"",
            p.commit.subject().as_str(),
            "\"\n\nThis reverts commit ",
            p.id.as_str(),
            ".",
        )
    } else {
        copy_text(p.commit.message.as_str())
    }
}

fn write_label(p: &Chosen) -> (r: String)
    ensures
        r@ == replay_label(p@),
{
    join4(short(p.id.as_str()).as_str(), " (", p.commit.subject().as_str(), ")")
}

fn write_advice(name: &str, label: &str) -> (r: String)
    ensures
        r@ == replay_advice(name@, label@),
{
    let mut out = join5(
        "error: could not apply ",
        label,
        "\nhint: After resolving the conflicts, mark them with\nhint: \"git add/rm <pathspec>\", then run \"git ",
        name,
        " --continue\".\nhint: You can instead skip this commit with \"git ",
    );
    out.append(name);
    out.append(" --skip\".\nhint: To abort and get back to the state before \"git ");
    out.append(name);
    out.append("\",\nhint: run \"git ");
    out.append(name);
    out.append(" --abort\".");
    out
}

/// Recording the new commit. Whoever wrote the change stays its author, except for a revert.
pub open spec fn replay_committed(
    m: Machine,
    s: Screen,
    root: Seq<char>,
    g: Overrides,
    revert: bool,
    p: Pick,
    before: Files,
    after: Files,
) -> Done {
    let who = if revert {
        identity_of(m, root, g)
    } else {
        (p.note.author_name, p.note.author_email)
    };
    let note = Note {
        parents: seq![p.head],
        author_name: who.0,
        author_email: who.1,
        timestamp: clock_seconds(m),
        message: replay_message(revert, p),
    };
    let id = commit_id(note, after);
    match commit_stored(m, root, note, after) {
        (m1, Err(e)) => failed(m1, s, write_message("the commit"@, e)),
        (m1, Ok(())) => match head_updated(
            m1,
            root,
            id,
            replay_name(revert) + ": "@ + subject_of(note.message),
        ) {
            (m2, Err(e)) => failed(m2, s, write_message("HEAD"@, e)),
            (m2, Ok(())) => Done {
                m: m2,
                s: printed(
                    s,
                    "["@ + match branch_of(m2, root) {
                        Some(b) => b,
                        None => "detached HEAD"@,
                    } + " "@ + short_id(id) + "] "@ + subject_of(note.message) + "\n"@
                        + commit_summary(m2, root, before, after),
                ),
                status: 0,
            },
        },
    }
}

fn commit_replay(
    system: &mut System,
    root: &str,
    globals: &Globals,
    revert: bool,
    p: &Chosen,
    before: &Tree,
    after: &Tree,
    io: &mut Io,
) -> (r: i32)
    ensures
        done(final(system)@, final(io)@, r) == replay_committed(
            old(system)@,
            old(io)@,
            root@,
            globals@,
            revert,
            p@,
            before@,
            after@,
        ),
{
    let (author_name, author_email) = if revert {
        identity(system, root, globals)
    } else {
        (
            copy_text(p.commit.author_name.as_str()),
            copy_text(p.commit.author_email.as_str()),
        )
    };
    let mut parents: Vec<String> = Vec::new();
    parents.push(copy_text(p.head.as_str()));
    assert(texts(parents@) =~= seq![p.head@]);
    let commit = Commit {
        parents,
        author_name,
        author_email,
        timestamp: now_seconds(system),
        message: write_message_of(revert, p),
    };
    let id = match store_commit(system, root, &commit, after) {
        Ok(id) => id,
        Err(e) => return cannot_write(io, "the commit", &e),
    };
    let action = join3(name_of_replay(revert), ": ", commit.subject().as_str());
    match update_head(system, root, id.as_str(), action.as_str()) {
        Ok(()) => {},
        Err(e) => return cannot_write(io, "HEAD", &e),
    }
    let branch = match current_branch(system, root) {
        Some(b) => b,
        None => copy_text("detached HEAD"),
    };
    let mut out = join5(
        "[",
        branch.as_str(),
        " ",
        short(id.as_str()).as_str(),
        "] ",
    );
    out.append(commit.subject().as_str());
    out.append("\n");
    out.append(render_commit_summary(system, root, before, after).as_str());
    io.print(out.as_str());
    0
}

/// What follows once the trees are combined.
pub open spec fn replay_settled(
    m: Machine,
    s: Screen,
    root: Seq<char>,
    g: Overrides,
    x: Run,
    p: Pick,
    index: Files,
    head: Files,
    mix: Mix,
) -> Done {
    let name = replay_name(x.revert);
    match tree_written(m, root, head, mix.tree, false) {
        (m1, Err(e)) => Done {
            m: m1,
            s: complained(s, "git "@ + name + ": "@ + e + "\n"@),
            status: 1,
        },
        (m1, Ok(())) => match index_stored(
            m1,
            root,
            index_touched(index, mix.tree, changed_paths(head, mix.tree, seq![])),
        ) {
            (m2, Err(e)) => failed(m2, s, write_message("the index"@, e)),
            (m2, Ok(())) => if mix.stages.len() > 0 {
                paused(
                    m2,
                    s,
                    root,
                    Pause {
                        kind: if x.revert {
                            "REVERT_HEAD"@
                        } else {
                            "CHERRY_PICK_HEAD"@
                        },
                        commit: p.id,
                        message: replay_message(x.revert, p),
                        theirs_label: replay_label(p),
                        advice: replay_advice(name, replay_label(p)),
                    },
                    mix.stages,
                )
            } else if x.no_commit {
                Done { m: m2, s, status: 0 }
            } else if mix.tree == head {
                Done {
                    m: m2,
                    s: complained(
                        s,
                        "The previous cherry-pick is now empty, possibly due to conflict resolution.\nfatal: "@
                            + name + " failed\n"@,
                    ),
                    status: 1,
                }
            } else {
                replay_committed(m2, s, root, g, x.revert, p, head, mix.tree)
            },
        },
    }
}

fn settle_replay(
    system: &mut System,
    root: &str,
    globals: &Globals,
    x: &Sequence,
    p: &Chosen,
    index: &Tree,
    head: &Tree,
    combined: &Combined,
    io: &mut Io,
) -> (r: i32)
    ensures
        done(final(system)@, final(io)@, r) == replay_settled(
            old(system)@,
            old(io)@,
            root@,
            globals@,
            x@,
            p@,
            index@,
            head@,
            (Mix { tree: combined.tree@, stages: combined.stages@ }),
        ),
{
    let name = name_of_replay(x.revert);
    match update_work_tree(system, root, head, &combined.tree) {
        Ok(()) => {},
        Err(e) => {
            io.print_err(join5("git ", name, ": ", e.as_str(), "\n").as_str());
            return 1;
        },
    }
    let touched = touch_index(index, head, &combined.tree);
    match store_index(system, root, &touched) {
        Ok(()) => {},
        Err(e) => return cannot_write(io, "the index", &e),
    }
    if combined.stages.len() > 0 {
        let label = write_label(p);
        let message = write_message_of(x.revert, p);
        let advice = write_advice(name, label.as_str());
        let stop = Paused {
            kind: if x.revert {
                "REVERT_HEAD"
            } else {
                "CHERRY_PICK_HEAD"
            },
            commit: p.id.as_str(),
            message: message.as_str(),
            theirs_label: label.as_str(),
            advice: advice.as_str(),
        };
        return pause_for_conflicts(system, root, &stop, &combined.stages, io);
    }
    if x.no_commit {
        return 0;
    }
    if same_tree(&combined.tree, head) {
        io.print_err(
            join3(
                "The previous cherry-pick is now empty, possibly due to conflict resolution.\nfatal: ",
                name,
                " failed\n",
            ).as_str(),
        );
        return 1;
    }
    commit_replay(system, root, globals, x.revert, p, head, &combined.tree, io)
}

/// The complaint that work is in the way.
pub open spec fn replay_blocked(name: Seq<char>) -> Seq<char> {
    "error: your local changes would be overwritten by "@ + name
        + ".\nhint: commit your changes or stash them to proceed.\nfatal: "@ + name + " failed\n"@
}

/// Applying one commit, once its trees are read. An index that holds something of its own is
/// refused, except where no commit is made.
pub open spec fn replay_applied(
    m: Machine,
    s: Screen,
    root: Seq<char>,
    g: Overrides,
    x: Run,
    p: Pick,
    k: Grounds,
) -> Done {
    let (base, theirs) = if x.revert {
        (k.commit, k.parent)
    } else {
        (k.parent, k.commit)
    };
    match trio_read(m, s, root) {
        (n, t, Err(e)) => Done { m: n, s: t, status: e },
        (n, t, Ok(trio)) => if (!x.no_commit && trio.index != k.head) || blocking(
            trio,
            theirs,
        ).len() > 0 {
            Done { m: n, s: complained(t, replay_blocked(replay_name(x.revert))), status: 128 }
        } else {
            match mixed(n, root, (base, k.head, theirs), ("HEAD"@, replay_label(p))) {
                (n2, Err((path, e))) => failed(n2, t, write_message(path, e)),
                (n2, Ok(mix)) => replay_settled(
                    n2,
                    t,
                    root,
                    g,
                    x,
                    p,
                    trio.index,
                    k.head,
                    mix,
                ),
            }
        },
    }
}

fn apply_replay(
    system: &mut System,
    root: &str,
    globals: &Globals,
    x: &Sequence,
    p: &Chosen,
    k: &Sources,
    io: &mut Io,
) -> (r: i32)
    ensures
        done(final(system)@, final(io)@, r) == replay_applied(
            old(system)@,
            old(io)@,
            root@,
            globals@,
            x@,
            p@,
            k@,
        ),
{
    let (base, theirs) = if x.revert {
        (&k.commit, &k.parent)
    } else {
        (&k.parent, &k.commit)
    };
    let trio = match snapshot(system, root, io) {
        Ok(t) => t,
        Err(e) => return e,
    };
    let name = name_of_replay(x.revert);
    let staged = !x.no_commit && !same_tree(&trio.index, &k.head);
    let v = blocking_changes(&trio, theirs);
    assert(texts(v@).len() == v@.len());
    if staged || v.len() > 0 {
        io.print_err(
            join5(
                "error: your local changes would be overwritten by ",
                name,
                ".\nhint: commit your changes or stash them to proceed.\nfatal: ",
                name,
                " failed\n",
            ).as_str(),
        );
        return 128;
    }
    let label = write_label(p);
    let combined = match combine(
        system,
        root,
        base,
        &k.head,
        theirs,
        "HEAD",
        label.as_str(),
    ) {
        Ok(c) => c,
        Err(f) => return cannot_write(io, f.path.as_str(), &f.error),
    };
    settle_replay(system, root, globals, x, p, &trio.index, &k.head, &combined, io)
}

/// Applying one commit.
pub open spec fn one_replayed(m: Machine, s: Screen, root: Seq<char>, g: Overrides, x: Run, rev: Seq<char>) -> Done {
    match picked(m, s, root, x, rev) {
        Err(d) => d,
        Ok(p) => match grounds_read(m, s, root, p) {
            (t, Err(e)) => Done { m, s: t, status: e },
            (t, Ok(k)) => replay_applied(m, t, root, g, x, p, k),
        },
    }
}

/// Applies one commit.
pub fn replay_one(
    system: &mut System,
    globals: &Globals,
    root: &str,
    x: &Sequence,
    rev: &str,
    io: &mut Io,
) -> (r: i32)
    ensures
        done(final(system)@, final(io)@, r) == one_replayed(
            old(system)@,
            old(io)@,
            root@,
            globals@,
            x@,
            rev@,
        ),
{
    let p = match pick(system, root, x, rev, io) {
        Ok(p) => p,
        Err(e) => return e,
    };
    let k = match read_grounds(system, root, &p, io) {
        Ok(k) => k,
        Err(e) => return e,
    };
    apply_replay(system, root, globals, x, &p, &k, io)
}

// ---------------------------------------------------------------------------
// Runs of several commits
// ---------------------------------------------------------------------------

/// Applying the commits that are left. Where one stops, the rest is recorded.
pub open spec fn run_carried_out(m: Machine, s: Screen, root: Seq<char>, g: Overrides, x: Run) -> Done
    decreases x.todo.len(),
{
    if x.todo.len() == 0 {
        Done { m: dropped(m, root, "SEQUENCER"@), s, status: 0 }
    } else {
        let rest = Run { todo: x.todo.skip(1), ..x };
        let d = one_replayed(m, s, root, g, rest, x.todo[0]);
        if d.status != 0 {
            Done { m: run_stored(d.m, root, rest), ..d }
        } else {
            run_carried_out(d.m, d.s, root, g, rest)
        }
    }
}

fn run_sequence(system: &mut System, globals: &Globals, root: &str, sequence: Sequence, io: &mut Io) -> (r: i32)
    ensures
        done(final(system)@, final(io)@, r) == run_carried_out(
            old(system)@,
            old(io)@,
            root@,
            globals@,
            sequence@,
        ),
{
    let mut x = sequence;
    let ghost goal = run_carried_out(system@, io@, root@, globals@, x@);
    while x.todo.len() > 0
        invariant
            goal == run_carried_out(old(system)@, old(io)@, root@, globals@, sequence@),
            goal == run_carried_out(system@, io@, root@, globals@, x@),
        decreases x.todo@.len(),
    {
        let ghost before = x@;
        assert(before.todo.len() == x.todo@.len());
        assert(before.todo[0] == x.todo@[0]@);
        let id = x.todo.remove(0);
        assert(x@ =~= Run { todo: before.todo.skip(1), ..before });
        let status = replay_one(system, globals, root, &x, id.as_str(), io);
        if status != 0 {
            store_sequence(system, root, &x);
            return status;
        }
    }
    assert(x@.todo.len() == x.todo@.len());
    drop_file(system, root, "SEQUENCER");
    0
}

/// Carrying on with a run that stopped.
pub open spec fn run_resumed(m: Machine, s: Screen, root: Seq<char>, g: Overrides) -> Done {
    match run_of(m, root) {
        Some(x) => run_carried_out(m, s, root, g, x),
        None => Done { m, s, status: 0 },
    }
}

fn resume_sequence(system: &mut System, globals: &Globals, root: &str, io: &mut Io) -> (r: i32)
    ensures
        done(final(system)@, final(io)@, r) == run_resumed(
            old(system)@,
            old(io)@,
            root@,
            globals@,
        ),
{
    match load_sequence(system, root) {
        Some(x) => run_sequence(system, globals, root, x, io),
        None => 0,
    }
}

/// Giving up a whole run: everything goes back to where it started.
pub open spec fn run_aborted(m: Machine, s: Screen, root: Seq<char>, name: Seq<char>) -> Done {
    match run_of(m, root) {
        None => pending_aborted(m, s, root, name),
        Some(x) => match tree_needed(m, s, root, x.original) {
            (t, Err(e)) => Done { m, s: t, status: e },
            (t, Ok(target)) => {
                let d = put_back(m, t, root, name, target);
                if d.status != 0 {
                    d
                } else {
                    match head_updated(d.m, root, x.original, name + ": aborted"@) {
                        (n, Err(e)) => failed(n, d.s, write_message("HEAD"@, e)),
                        (n, Ok(())) => Done {
                            m: dropped(cleared(n, root), root, "SEQUENCER"@),
                            s: d.s,
                            status: 0,
                        },
                    }
                }
            },
        },
    }
}

fn abort_sequence(system: &mut System, root: &str, name: &str, io: &mut Io) -> (r: i32)
    ensures
        done(final(system)@, final(io)@, r) == run_aborted(
            old(system)@,
            old(io)@,
            root@,
            name@,
        ),
{
    let x = match load_sequence(system, root) {
        Some(x) => x,
        None => return abort_pending(system, root, name, io),
    };
    let target = match require_tree(system, root, x.original.as_str(), io) {
        Ok(t) => t,
        Err(e) => return e,
    };
    let status = put_tree_back(system, root, name, &target, io);
    if status != 0 {
        return status;
    }
    match update_head(
        system,
        root,
        x.original.as_str(),
        join2(name, ": aborted").as_str(),
    ) {
        Ok(()) => {},
        Err(e) => return cannot_write(io, "HEAD", &e),
    }
    clear(system, root);
    drop_file(system, root, "SEQUENCER");
    0
}

// ---------------------------------------------------------------------------
// git cherry-pick and git revert
// ---------------------------------------------------------------------------

/// What the options of `git cherry-pick` and `git revert` ask for.
#[derive(Clone, Copy)]
pub struct ReplayAsk {
    pub revert: bool,
    pub no_commit: bool,
    pub mainline: Option<usize>,
}

impl View for ReplayAsk {
    type V = ReplayAsk;

    open spec fn view(&self) -> ReplayAsk {
        *self
    }
}

/// What is asked for without any option.
pub open spec fn plain_replay(revert: bool) -> ReplayAsk {
    ReplayAsk { revert, no_commit: false, mainline: None }
}

impl Talk for ReplayAsk {
    open spec fn wants(name: Seq<char>) -> Want {
        if name == "-m"@ || name == "--mainline"@ {
            Want::Needed
        } else {
            Want::Attached
        }
    }

    open spec fn with(
        m: Machine,
        root: Seq<char>,
        asked: ReplayAsk,
        name: Seq<char>,
        value: Option<Seq<char>>,
    ) -> Result<ReplayAsk, Stop> {
        if name == "-m"@ || name == "--mainline"@ {
            match crate::logging::count_in(value) {
                Some(n) => if n > 0 {
                    Ok(ReplayAsk { mainline: Some(n as usize), ..asked })
                } else {
                    Err(Stop::Wrong(replay_name(asked.revert) + " -m wants a parent number"@))
                },
                None => Err(Stop::Wrong(replay_name(asked.revert) + " -m wants a parent number"@)),
            }
        } else if name == "-n"@ || name == "--no-commit"@ {
            Ok(ReplayAsk { no_commit: true, ..asked })
        } else if name == "-e"@ || name == "--edit"@ || name == "--no-edit"@ || name == "-q"@
            || name == "--quiet"@ {
            Ok(asked)
        } else if name == "--abort"@ || name == "--quit"@ || name == "--skip"@ || name
            == "--continue"@ {
            Err(Stop::Act(name))
        } else {
            Err(
                Stop::Wrong(
                    "unsupported "@ + replay_name(asked.revert) + " option: "@ + name,
                ),
            )
        }
    }

    fn wanted(name: &str) -> (r: Want) {
        if same(name, "-m") || same(name, "--mainline") {
            Want::Needed
        } else {
            Want::Attached
        }
    }

    fn apply(&mut self, system: &System, root: &str, name: &str, value: Option<String>) -> (r: Result<
        (),
        Halt,
    >) {
        if same(name, "-m") || same(name, "--mainline") {
            let n = match &value {
                Some(v) => crate::numbers::parse_usize(v.as_str()),
                None => None,
            };
            match n {
                Some(n) => {
                    if n == 0 {
                        return Err(
                            Halt::Wrong(
                                join2(name_of_replay(self.revert), " -m wants a parent number"),
                            ),
                        );
                    }
                    self.mainline = Some(n);
                },
                None => return Err(
                    Halt::Wrong(
                        join2(name_of_replay(self.revert), " -m wants a parent number"),
                    ),
                ),
            }
        } else if same(name, "-n") || same(name, "--no-commit") {
            self.no_commit = true;
        } else if same(name, "-e") || same(name, "--edit") || same(name, "--no-edit") || same(
            name,
            "-q",
        ) || same(name, "--quiet") {
        } else if same(name, "--abort") || same(name, "--quit") || same(name, "--skip") || same(
            name,
            "--continue",
        ) {
            return Err(Halt::Act(copy_text(name)));
        } else {
            return Err(
                Halt::Wrong(
                    join4("unsupported ", name_of_replay(self.revert), " option: ", name),
                ),
            );
        }
        Ok(())
    }
}

/// The commits that the operands from `i` on name, with those before; or the one that is not known.
pub open spec fn commits_named(m: Machine, root: Seq<char>, v: Seq<Seq<char>>, i: int, ids: Seq<Seq<char>>) -> Result<
    Seq<Seq<char>>,
    Seq<char>,
>
    decreases v.len() - i,
{
    if i < 0 || i >= v.len() {
        Ok(ids)
    } else {
        match revision(m, root, v[i]) {
            Some(id) => commits_named(m, root, v, i + 1, ids.push(id)),
            None => Err(v[i]),
        }
    }
}

/// Resolves every operand, or names the first that is not known.
pub fn resolve_all(system: &System, root: &str, v: &[String]) -> (r: Result<Vec<String>, String>)
    ensures
        match r {
            Ok(ids) => commits_named(system@, root@, texts(v@), 0, seq![]) == Ok::<
                Seq<Seq<char>>,
                Seq<char>,
            >(texts(ids@)),
            Err(e) => commits_named(system@, root@, texts(v@), 0, seq![]) == Err::<
                Seq<Seq<char>>,
                Seq<char>,
            >(e@),
        },
{
    let ghost all = texts(v@);
    let mut ids: Vec<String> = Vec::new();
    assert(texts(ids@) =~= seq![]);
    let ghost goal = commits_named(system@, root@, all, 0, seq![]);
    let mut i: usize = 0;
    while i < v.len()
        invariant
            i <= v@.len(),
            all == texts(v@),
            goal == commits_named(system@, root@, all, 0, seq![]),
            goal == commits_named(system@, root@, all, i as int, texts(ids@)),
        decreases v@.len() - i,
    {
        broadcast use lemma_texts_push;

        assert(all.len() == v@.len());
        assert(all[i as int] == v@[i as int]@);
        match resolve_revision(system, root, v[i].as_str()) {
            Some(id) => ids.push(id),
            None => return Err(copy_text(v[i].as_str())),
        }
        i += 1;
    }
    Ok(ids)
}

/// Starting a run over the operands.
pub open spec fn replay_started(
    m: Machine,
    s: Screen,
    root: Seq<char>,
    g: Overrides,
    x: ReplayAsk,
    v: Seq<Seq<char>>,
) -> Done {
    let name = replay_name(x.revert);
    if v.len() == 0 {
        misused(m, s, "usage: git "@ + name + " [-n] [-m PARENT] COMMIT..."@)
    } else {
        match head_id(m, root) {
            None => failed(m, s, name + " needs a commit to apply onto"@),
            Some(original) => match commits_named(m, root, v, 0, seq![]) {
                Err(rev) => failed(m, s, "bad revision '"@ + rev + "'"@),
                Ok(todo) => run_carried_out(
                    m,
                    s,
                    root,
                    g,
                    Run {
                        revert: x.revert,
                        no_commit: x.no_commit,
                        mainline: opt_nat(x.mainline),
                        original,
                        todo,
                    },
                ),
            },
        }
    }
}

/// What an option that is carried out at once does.
pub open spec fn replay_acted(
    m: Machine,
    s: Screen,
    root: Seq<char>,
    g: Overrides,
    name: Seq<char>,
    option: Seq<char>,
) -> Done {
    if option == "--abort"@ || option == "--quit"@ {
        run_aborted(m, s, root, name)
    } else {
        let d = if option == "--skip"@ {
            pending_aborted(m, s, root, name)
        } else {
            pending_continued(m, s, root, g, name)
        };
        if d.status != 0 {
            d
        } else {
            run_resumed(d.m, d.s, root, g)
        }
    }
}

/// `git cherry-pick` or `git revert`.
pub open spec fn replay_done(m: Machine, s: Screen, g: Overrides, revert: bool, args: Seq<Seq<char>>) -> Done {
    match repo_root(m) {
        None => no_repo(m, s),
        Some(root) => match talk_read::<ReplayAsk>(
            m,
            root,
            pass_for(args, "neq"@, "m"@),
            plain_replay(revert),
            seq![],
        ) {
            Err(Stop::Act(option)) => replay_acted(m, s, root, g, replay_name(revert), option),
            Err(e) => stopped(m, s, e),
            Ok((x, v)) => replay_started(m, s, root, g, x, v),
        },
    }
}

fn start_replay(
    system: &mut System,
    globals: &Globals,
    root: &str,
    x: &ReplayAsk,
    v: &[String],
    io: &mut Io,
) -> (r: i32)
    ensures
        done(final(system)@, final(io)@, r) == replay_started(
            old(system)@,
            old(io)@,
            root@,
            globals@,
            *x,
            texts(v@),
        ),
{
    let name = name_of_replay(x.revert);
    assert(texts(v@).len() == v@.len());
    if v.len() == 0 {
        return usage(io, join3("usage: git ", name, " [-n] [-m PARENT] COMMIT...").as_str());
    }
    let original = match head_commit(system, root) {
        Some(id) => id,
        None => return fatal(io, join2(name, " needs a commit to apply onto").as_str()),
    };
    let todo = match resolve_all(system, root, v) {
        Ok(ids) => ids,
        Err(rev) => return fatal(io, join3("bad revision '", rev.as_str(), "'").as_str()),
    };
    let sequence = Sequence {
        revert: x.revert,
        no_commit: x.no_commit,
        mainline: x.mainline,
        original,
        todo,
    };
    run_sequence(system, globals, root, sequence, io)
}

fn act_replay(
    system: &mut System,
    globals: &Globals,
    root: &str,
    name: &str,
    option: &str,
    io: &mut Io,
) -> (r: i32)
    ensures
        done(final(system)@, final(io)@, r) == replay_acted(
            old(system)@,
            old(io)@,
            root@,
            globals@,
            name@,
            option@,
        ),
{
    if same(option, "--abort") || same(option, "--quit") {
        return abort_sequence(system, root, name, io);
    }
    let status = if same(option, "--skip") {
        abort_pending(system, root, name, io)
    } else {
        continue_pending(system, root, globals, name, io)
    };
    if status != 0 {
        return status;
    }
    resume_sequence(system, globals, root, io)
}

/// `git cherry-pick` or `git revert`: applies the change of commits again, or undoes it.
pub fn git_replay(system: &mut System, globals: &Globals, revert: bool, args: &[String], io: &mut Io) -> (r: i32)
    ensures
        done(final(system)@, final(io)@, r) == replay_done(
            old(system)@,
            old(io)@,
            globals@,
            revert,
            texts(args@),
        ),
{
    let root = match find_repo_root(system) {
        Some(root) => root,
        None => return repo_error(io),
    };
    let start = ReplayAsk { revert, no_commit: false, mainline: None };
    let (x, v) = match read_talk(system, root.as_str(), flags_for(args, "neq", "m"), start) {
        Ok(words) => words,
        Err(Halt::Act(option)) => {
            return act_replay(
                system,
                globals,
                root.as_str(),
                name_of_replay(revert),
                option.as_str(),
                io,
            );
        },
        Err(e) => {
            assert(stopped(system@, io@, e@).m == system@);
            return e.report(io);
        },
    };
    start_replay(system, globals, root.as_str(), &x, v.as_slice(), io)
}

} // verus!
