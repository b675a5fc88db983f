//! `git merge`.

use vstd::prelude::*;

use crate::combine::{combine, mixed, Combined, Mix};
use crate::common::{
    commit_tree_or_empty, done, parent_needed, parent_tree, require_tree, snapshot, tree_needed, tree_or_empty,
    trio_read,
};
use crate::compare::{compare_trees, comparison, options_of, shape_of, Format};
use crate::configuration::{identity, identity_of, Globals, Overrides};
use crate::console::{
    cannot_write, complained, failed, fatal, misused, no_repo, printed, repo_error, usage, write_message, Done, Io,
    Screen,
};
use crate::dates::{clock_seconds, now_seconds};
use crate::history::{ancestors, ancestry, merge_base, shared_base, within};
use crate::moves::{
    blocking, blocking_changes, checked_out, checkout_commit, overwrite_refused, refuse_untracked_overwrite,
};
use crate::objects::{short, short_id};
use crate::pausing::{
    abort_pending, continue_pending, pause_for_conflicts, paused, pending_aborted, pending_continued, Pause, Paused,
};
use crate::records::{Commit, Note};
use crate::repo::{
    branch_of, commit_id, commit_stored, current_branch, find_repo_root, head_commit, head_id, head_updated,
    index_stored, orig_head_recorded, record_orig_head, repo_root, store_commit, store_index, update_head,
};
use crate::revisions::{resolve_revision, revision};
use crate::syntax::{flags_for, pass_for, read_talk, stopped, talk_read, Halt, Stop, Talk, Want};
use crate::system::{Machine, System};
use crate::text::{copy_text, join2, join3, join4, join5, opt_text, same, texts};
use crate::trees::{Files, Tree};
use crate::worktree::{tree_written, update_work_tree};

verus! {

/// What the options of `git merge` ask for.
pub struct MergeAsk {
    pub no_fast_forward: bool,
    pub fast_forward_only: bool,
    pub message: Option<String>,
}

/// What is asked of `git merge`.
#[verifier::ext_equal]
pub struct MergeWish {
    pub no_fast_forward: bool,
    pub fast_forward_only: bool,
    pub message: Option<Seq<char>>,
}

impl View for MergeAsk {
    type V = MergeWish;

    open spec fn view(&self) -> MergeWish {
        MergeWish {
            no_fast_forward: self.no_fast_forward,
            fast_forward_only: self.fast_forward_only,
            message: opt_text(self.message),
        }
    }
}

/// What `git merge` is asked for without any option.
pub open spec fn plain_merge() -> MergeWish {
    MergeWish { no_fast_forward: false, fast_forward_only: false, message: None }
}

impl Talk for MergeAsk {
    open spec fn wants(name: Seq<char>) -> Want {
        if name == "-m"@ || name == "--message"@ {
            Want::Needed
        } else {
            Want::Attached
        }
    }

    open spec fn with(
        m: Machine,
        root: Seq<char>,
        asked: MergeWish,
        name: Seq<char>,
        value: Option<Seq<char>>,
    ) -> Result<MergeWish, Stop> {
        if name == "--no-ff"@ {
            Ok(MergeWish { no_fast_forward: true, ..asked })
        } else if name == "--ff-only"@ {
            Ok(MergeWish { fast_forward_only: true, ..asked })
        } else if name == "--ff"@ || name == "--no-edit"@ || name == "-q"@ || name == "--quiet"@ {
            Ok(asked)
        } else if name == "--abort"@ || name == "--continue"@ {
            Err(Stop::Act(name))
        } else if name == "-m"@ || name == "--message"@ {
            Ok(MergeWish { message: value, ..asked })
        } else {
            Err(Stop::Wrong("unsupported merge option: "@ + name))
        }
    }

    fn wanted(name: &str) -> (r: Want) {
        if same(name, "-m") || same(name, "--message") {
            Want::Needed
        } else {
            Want::Attached
        }
    }

    fn apply(&mut self, system: &System, root: &str, name: &str, value: Option<String>) -> (r: Result<
        (),
        Halt,
    >) {
        if same(name, "--no-ff") {
            self.no_fast_forward = true;
        } else if same(name, "--ff-only") {
            self.fast_forward_only = true;
        } else if same(name, "--ff") || same(name, "--no-edit") || same(name, "-q") || same(
            name,
            "--quiet",
        ) {
        } else if same(name, "--abort") || same(name, "--continue") {
            return Err(Halt::Act(copy_text(name)));
        } else if same(name, "-m") || same(name, "--message") {
            self.message = value;
        } else {
            return Err(Halt::Wrong(join2("unsupported merge option: ", name)));
        }
        Ok(())
    }
}

/// How much each file changes, and the files that came, went or changed their mode.
pub open spec fn change_report(m: Machine, root: Seq<char>, before: Files, after: Files) -> Seq<char> {
    comparison(m, root, before, after, shape_of(Format::Stat)).0 + comparison(
        m,
        root,
        before,
        after,
        shape_of(Format::Summary),
    ).0
}

/// How much each file changes, and the files that came, went or changed their mode.
pub fn render_change(system: &System, root: &str, before: &Tree, after: &Tree) -> (r: String)
    ensures
        r@ == change_report(system@, root@, before@, after@),
{
    join2(
        compare_trees(system, root, before, after, &options_of(Format::Stat)).0.as_str(),
        compare_trees(system, root, before, after, &options_of(Format::Summary)).0.as_str(),
    )
}

/// Moving a branch forward to a commit that it leads to.
pub open spec fn fast_forwarded(
    m: Machine,
    s: Screen,
    root: Seq<char>,
    target: Seq<char>,
    head: Seq<char>,
    other: Seq<char>,
) -> Done {
    let d = checked_out(m, s, root, other);
    if d.status != 0 {
        d
    } else {
        match head_updated(d.m, root, other, "merge "@ + target + ": Fast-forward"@) {
            (n, Err(e)) => failed(n, d.s, write_message("HEAD"@, e)),
            (n, Ok(())) => Done {
                m: n,
                s: printed(
                    d.s,
                    "Updating "@ + short_id(head) + ".."@ + short_id(other) + "\nFast-forward\n"@
                        + change_report(
                        n,
                        root,
                        tree_or_empty(n, root, head),
                        tree_or_empty(n, root, other),
                    ),
                ),
                status: 0,
            },
        }
    }
}

fn fast_forward(system: &mut System, root: &str, target: &str, head: &str, other: &str, io: &mut Io) -> (r: i32)
    ensures
        done(final(system)@, final(io)@, r) == fast_forwarded(
            old(system)@,
            old(io)@,
            root@,
            target@,
            head@,
            other@,
        ),
{
    let status = checkout_commit(system, root, other, io);
    if status != 0 {
        return status;
    }
    let action = join3("merge ", target, ": Fast-forward");
    match update_head(system, root, other, action.as_str()) {
        Ok(()) => {},
        Err(e) => return cannot_write(io, "HEAD", &e),
    }
    let before = commit_tree_or_empty(system, root, head);
    let after = commit_tree_or_empty(system, root, other);
    let mut out = join5(
        "Updating ",
        short(head).as_str(),
        "..",
        short(other).as_str(),
        "\nFast-forward\n",
    );
    out.append(render_change(system, root, &before, &after).as_str());
    io.print(out.as_str());
    0
}

/// The message of a merge. The branch that is merged into is named unless it is the default one.
pub open spec fn merge_subject(m: Machine, root: Seq<char>, x: MergeWish, target: Seq<char>) -> Seq<char> {
    match x.message {
        Some(text) => text,
        None => match branch_of(m, root) {
            Some(b) => if b != "main"@ {
                "Merge branch '"@ + target + "' into "@ + b
            } else {
                "Merge branch '"@ + target + "'"@
            },
            None => "Merge branch '"@ + target + "'"@,
        },
    }
}

fn write_subject(system: &System, root: &str, x: &MergeAsk, target: &str) -> (r: String)
    ensures
        r@ == merge_subject(system@, root@, x@, target@),
{
    if let Some(text) = &x.message {
        return copy_text(text.as_str());
    }
    if let Some(b) = current_branch(system, root) {
        if !same(b.as_str(), "main") {
            return join4("Merge branch '", target, "' into ", b.as_str());
        }
    }
    join3("Merge branch '", target, "'")
}

/// The ends of a merge.
pub struct Ends {
    /// What was asked for.
    pub target: Seq<char>,
    /// The commit that is merged into.
    pub head: Seq<char>,
    /// The commit that is merged.
    pub other: Seq<char>,
}

/// Recording a merge commit.
pub open spec fn merge_committed(
    m: Machine,
    s: Screen,
    root: Seq<char>,
    g: Overrides,
    e: Ends,
    subject: Seq<char>,
    head_tree: Files,
    merged: Files,
) -> Done {
    let who = identity_of(m, root, g);
    let note = Note {
        parents: seq![e.head, e.other],
        author_name: who.0,
        author_email: who.1,
        timestamp: clock_seconds(m),
        message: subject,
    };
    match commit_stored(m, root, note, merged) {
        (m1, Err(f)) => failed(m1, s, write_message("the merge commit"@, f)),
        (m1, Ok(())) => match head_updated(
            m1,
            root,
            commit_id(note, merged),
            "merge "@ + e.target,
        ) {
            (m2, Err(f)) => failed(m2, s, write_message("HEAD"@, f)),
            (m2, Ok(())) => Done {
                m: m2,
                s: printed(
                    s,
                    "Merge made by the 'ort' strategy.\n"@ + change_report(
                        m2,
                        root,
                        head_tree,
                        merged,
                    ),
                ),
                status: 0,
            },
        },
    }
}

fn commit_merge(
    system: &mut System,
    root: &str,
    globals: &Globals,
    target: &str,
    head: &str,
    other: &str,
    subject: String,
    head_tree: &Tree,
    merged: &Tree,
    io: &mut Io,
) -> (r: i32)
    ensures
        done(final(system)@, final(io)@, r) == merge_committed(
            old(system)@,
            old(io)@,
            root@,
            globals@,
            (Ends { target: target@, head: head@, other: other@ }),
            subject@,
            head_tree@,
            merged@,
        ),
{
    let (author_name, author_email) = identity(system, root, globals);
    let mut parents: Vec<String> = Vec::new();
    parents.push(copy_text(head));
    parents.push(copy_text(other));
    assert(texts(parents@) =~= seq![head@, other@]);
    let commit = Commit {
        parents,
        author_name,
        author_email,
        timestamp: now_seconds(system),
        message: subject,
    };
    let id = match store_commit(system, root, &commit, merged) {
        Ok(id) => id,
        Err(e) => return cannot_write(io, "the merge commit", &e),
    };
    match update_head(system, root, id.as_str(), join2("merge ", target).as_str()) {
        Ok(()) => {},
        Err(e) => return cannot_write(io, "HEAD", &e),
    }
    io.print(
        join2(
            "Merge made by the 'ort' strategy.\n",
            render_change(system, root, head_tree, merged).as_str(),
        ).as_str(),
    );
    0
}

/// What follows once the trees are combined: the files and the index are written, and the merge is
/// recorded or stops for its conflicts.
pub open spec fn merge_settled(
    m: Machine,
    s: Screen,
    root: Seq<char>,
    g: Overrides,
    e: Ends,
    subject: Seq<char>,
    head_tree: Files,
    mix: Mix,
) -> Done {
    match tree_written(m, root, head_tree, mix.tree, false) {
        (m1, Err(f)) => Done { m: m1, s: complained(s, "git merge: "@ + f + "\n"@), status: 1 },
        (m1, Ok(())) => match index_stored(m1, root, mix.tree) {
            (m2, Err(f)) => failed(m2, s, write_message("the index"@, f)),
            (m2, Ok(())) => if mix.stages.len() > 0 {
                paused(
                    m2,
                    s,
                    root,
                    Pause {
                        kind: "MERGE_HEAD"@,
                        commit: e.other,
                        message: subject,
                        theirs_label: e.target,
                        advice: "Automatic merge failed; fix conflicts and then commit the result."@,
                    },
                    mix.stages,
                )
            } else {
                merge_committed(m2, s, root, g, e, subject, head_tree, mix.tree)
            },
        },
    }
}

fn settle_merge(
    system: &mut System,
    root: &str,
    globals: &Globals,
    target: &str,
    head: &str,
    other: &str,
    subject: String,
    head_tree: &Tree,
    combined: &Combined,
    io: &mut Io,
) -> (r: i32)
    ensures
        done(final(system)@, final(io)@, r) == merge_settled(
            old(system)@,
            old(io)@,
            root@,
            globals@,
            (Ends { target: target@, head: head@, other: other@ }),
            subject@,
            head_tree@,
            (Mix { tree: combined.tree@, stages: combined.stages@ }),
        ),
{
    match update_work_tree(system, root, head_tree, &combined.tree) {
        Ok(()) => {},
        Err(e) => {
            io.print_err(join3("git merge: ", e.as_str(), "\n").as_str());
            return 1;
        },
    }
    match store_index(system, root, &combined.tree) {
        Ok(()) => {},
        Err(e) => return cannot_write(io, "the index", &e),
    }
    if combined.stages.len() > 0 {
        let p = Paused {
            kind: "MERGE_HEAD",
            commit: other,
            message: subject.as_str(),
            theirs_label: target,
            advice: "Automatic merge failed; fix conflicts and then commit the result.",
        };
        return pause_for_conflicts(system, root, &p, &combined.stages, io);
    }
    commit_merge(
        system,
        root,
        globals,
        target,
        head,
        other,
        subject,
        head_tree,
        &combined.tree,
        io,
    )
}

/// Merging two lines of history that both moved on.
pub open spec fn histories_merged(
    m: Machine,
    s: Screen,
    root: Seq<char>,
    g: Overrides,
    x: MergeWish,
    e: Ends,
    base: Option<Seq<char>>,
    incoming: Files,
) -> Done {
    match parent_needed(m, s, root, base) {
        (t, Err(f)) => Done { m, s: t, status: f },
        (t, Ok(base_tree)) => match tree_needed(m, t, root, e.head) {
            (u, Err(f)) => Done { m, s: u, status: f },
            (u, Ok(head_tree)) => match mixed(
                m,
                root,
                (base_tree, head_tree, incoming),
                ("HEAD"@, e.target),
            ) {
                (n, Err((path, f))) => failed(n, u, write_message(path, f)),
                (n, Ok(mix)) => merge_settled(
                    n,
                    u,
                    root,
                    g,
                    e,
                    merge_subject(m, root, x, e.target),
                    head_tree,
                    mix,
                ),
            },
        },
    }
}

fn merge_histories(
    system: &mut System,
    root: &str,
    globals: &Globals,
    x: &MergeAsk,
    target: &str,
    head: &str,
    other: &str,
    base: &Option<String>,
    incoming: &Tree,
    io: &mut Io,
) -> (r: i32)
    ensures
        done(final(system)@, final(io)@, r) == histories_merged(
            old(system)@,
            old(io)@,
            root@,
            globals@,
            x@,
            (Ends { target: target@, head: head@, other: other@ }),
            opt_text(*base),
            incoming@,
        ),
{
    let base_tree = match parent_tree(system, root, base, io) {
        Ok(t) => t,
        Err(e) => return e,
    };
    let head_tree = match require_tree(system, root, head, io) {
        Ok(t) => t,
        Err(e) => return e,
    };
    let subject = write_subject(system, root, x, target);
    let combined = match combine(
        system,
        root,
        &base_tree,
        &head_tree,
        incoming,
        "HEAD",
        target,
    ) {
        Ok(c) => c,
        Err(f) => return cannot_write(io, f.path.as_str(), &f.error),
    };
    settle_merge(
        system,
        root,
        globals,
        target,
        head,
        other,
        subject,
        &head_tree,
        &combined,
        io,
    )
}

/// Merging once nothing stands in the way.
pub open spec fn merge_carried_out(
    m: Machine,
    s: Screen,
    root: Seq<char>,
    g: Overrides,
    x: MergeWish,
    e: Ends,
    incoming: Files,
) -> Done {
    let m1 = orig_head_recorded(m, root);
    let base = shared_base(m1, root, e.head, e.other);
    if base == Some(e.head) && !x.no_fast_forward {
        fast_forwarded(m1, s, root, e.target, e.head, e.other)
    } else if x.fast_forward_only {
        failed(m1, s, "Not possible to fast-forward, aborting."@)
    } else {
        histories_merged(m1, s, root, g, x, e, base, incoming)
    }
}

fn leads_to(base: &Option<String>, head: &str) -> (r: bool)
    ensures
        r == (opt_text(*base) == Some(head@)),
{
    match base {
        Some(b) => same(b.as_str(), head),
        None => false,
    }
}

fn carry_out_merge(
    system: &mut System,
    root: &str,
    globals: &Globals,
    x: &MergeAsk,
    target: &str,
    head: &str,
    other: &str,
    incoming: &Tree,
    io: &mut Io,
) -> (r: i32)
    ensures
        done(final(system)@, final(io)@, r) == merge_carried_out(
            old(system)@,
            old(io)@,
            root@,
            globals@,
            x@,
            (Ends { target: target@, head: head@, other: other@ }),
            incoming@,
        ),
{
    record_orig_head(system, root);
    let base = merge_base(system, root, head, other);
    if leads_to(&base, head) && !x.no_fast_forward {
        return fast_forward(system, root, target, head, other, io);
    }
    if x.fast_forward_only {
        return fatal(io, "Not possible to fast-forward, aborting.");
    }
    merge_histories(system, root, globals, x, target, head, other, &base, incoming, io)
}

/// `git merge` of one revision. Nothing happens where HEAD already has it, and work that is not
/// committed is not overwritten.
pub open spec fn merge_within(
    m: Machine,
    s: Screen,
    root: Seq<char>,
    g: Overrides,
    x: MergeWish,
    target: Seq<char>,
) -> Done {
    match revision(m, root, target) {
        None => Done {
            m,
            s: complained(s, "merge: "@ + target + " - not something we can merge\n"@),
            status: 1,
        },
        Some(other) => match head_id(m, root) {
            None => failed(m, s, "no commit on the current branch to merge into"@),
            Some(head) => if within(ancestry(m, root, head), other) {
                Done { m, s: printed(s, "Already up to date.\n"@), status: 0 }
            } else {
                match tree_needed(m, s, root, other) {
                    (t, Err(e)) => Done { m, s: t, status: e },
                    (t, Ok(incoming)) => match trio_read(m, t, root) {
                        (n, u, Err(e)) => Done { m: n, s: u, status: e },
                        (n, u, Ok(trio)) => {
                            let (w, refused) = overwrite_refused(
                                u,
                                trio,
                                incoming,
                                "merge"@,
                                "merge"@,
                            );
                            if blocking(trio, incoming).len() > 0 {
                                Done {
                                    m: n,
                                    s: complained(
                                        u,
                                        "error: Your local changes would be overwritten by merge.\n"@,
                                    ),
                                    status: 1,
                                }
                            } else if refused {
                                Done { m: n, s: w, status: 1 }
                            } else {
                                merge_carried_out(
                                    n,
                                    u,
                                    root,
                                    g,
                                    x,
                                    Ends { target, head, other },
                                    incoming,
                                )
                            }
                        },
                    },
                }
            },
        },
    }
}

fn merge_revision(
    system: &mut System,
    root: &str,
    globals: &Globals,
    x: &MergeAsk,
    target: &str,
    io: &mut Io,
) -> (r: i32)
    ensures
        done(final(system)@, final(io)@, r) == merge_within(
            old(system)@,
            old(io)@,
            root@,
            globals@,
            x@,
            target@,
        ),
{
    let other = match resolve_revision(system, root, target) {
        Some(id) => id,
        None => {
            io.print_err(
                join3("merge: ", target, " - not something we can merge\n").as_str(),
            );
            return 1;
        },
    };
    let head = match head_commit(system, root) {
        Some(id) => id,
        None => return fatal(io, "no commit on the current branch to merge into"),
    };
    if ancestors(system, root, head.as_str()).contains_key(other.as_str()) {
        io.print("Already up to date.\n");
        return 0;
    }
    let incoming = match require_tree(system, root, other.as_str(), io) {
        Ok(t) => t,
        Err(e) => return e,
    };
    let trio = match snapshot(system, root, io) {
        Ok(x) => x,
        Err(e) => return e,
    };
    let v = blocking_changes(&trio, &incoming);
    assert(texts(v@).len() == v@.len());
    if v.len() > 0 {
        io.print_err("error: Your local changes would be overwritten by merge.\n");
        return 1;
    }
    if refuse_untracked_overwrite(&trio, &incoming, "merge", "merge", io) {
        return 1;
    }
    carry_out_merge(
        system,
        root,
        globals,
        x,
        target,
        head.as_str(),
        other.as_str(),
        &incoming,
        io,
    )
}

/// `git merge`.
pub open spec fn merge_done(m: Machine, s: Screen, g: Overrides, args: Seq<Seq<char>>) -> Done {
    match repo_root(m) {
        None => no_repo(m, s),
        Some(root) => match talk_read::<MergeAsk>(
            m,
            root,
            pass_for(args, "q"@, "m"@),
            plain_merge(),
            seq![],
        ) {
            Err(Stop::Act(name)) => if name == "--abort"@ {
                pending_aborted(m, s, root, "merge"@)
            } else {
                pending_continued(m, s, root, g, "merge"@)
            },
            Err(e) => stopped(m, s, e),
            Ok((x, v)) => if v.len() == 1 {
                merge_within(m, s, root, g, x, v[0])
            } else {
                misused(m, s, "usage: git merge [--no-ff|--ff-only] BRANCH"@)
            },
        },
    }
}

/// `git merge`: joins another line of history.
pub fn git_merge(system: &mut System, globals: &Globals, args: &[String], io: &mut Io) -> (r: i32)
    ensures
        done(final(system)@, final(io)@, r) == merge_done(
            old(system)@,
            old(io)@,
            globals@,
            texts(args@),
        ),
{
    let root = match find_repo_root(system) {
        Some(root) => root,
        None => return repo_error(io),
    };
    let start = MergeAsk { no_fast_forward: false, fast_forward_only: false, message: None };
    assert(start@ =~= plain_merge());
    let (x, v) = match read_talk(system, root.as_str(), flags_for(args, "q", "m"), start) {
        Ok(words) => words,
        Err(Halt::Act(name)) => {
            if same(name.as_str(), "--abort") {
                return abort_pending(system, root.as_str(), "merge", io);
            }
            return continue_pending(system, root.as_str(), globals, "merge", io);
        },
        Err(e) => {
            assert(stopped(system@, io@, e@).m == system@);
            return e.report(io);
        },
    };
    assert(texts(v@).len() == v@.len());
    if v.len() != 1 {
        return usage(io, "usage: git merge [--no-ff|--ff-only] BRANCH");
    }
    assert(texts(v@)[0] == v@[0]@);
    merge_revision(system, root.as_str(), globals, &x, v[0].as_str(), io)
}

/// Merging what HEAD already has changes nothing.
pub proof fn lemma_merge_of_ancestor(
    m: Machine,
    s: Screen,
    root: Seq<char>,
    g: Overrides,
    x: MergeWish,
    target: Seq<char>,
)
    requires
        revision(m, root, target) is Some,
        head_id(m, root) is Some,
        within(ancestry(m, root, head_id(m, root)->0), revision(m, root, target)->0),
    ensures
        merge_within(m, s, root, g, x, target).m == m,
        merge_within(m, s, root, g, x, target).status == 0,
{
}

} // verus!
