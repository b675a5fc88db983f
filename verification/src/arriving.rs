//! Where switches, fast-forwards, rebases and commits arrive, and what they spare on the way.

use vstd::prelude::*;
use vstd::utf8::encode_utf8;

use crate::committing::{commit_base, commit_recorded, head_record, CommitWish};
use crate::common::{pathspecs_of, trio_read, Trio};
use crate::configuration::Overrides;
use crate::console::Screen;
use crate::history::{Listed, Names};
use crate::joining::fast_forwarded;
use crate::moves::{
    blocking, branch_remembered, carried, checked_out, collisions, dirty, dirty_test, rewritten_test, tree_checked_out,
    unrecorded_test,
};
use crate::names::{either, lemma_kept_holds, lemma_kept_passes, lemma_with_keys, with_keys};
use crate::order::{ascending, keys_of, lemma_lookup_at, lemma_lookup_place, lookup};
use crate::placing::{apart, placed_thing};
use crate::progress::{pending, rebase_cleared, rebase_of, Rebase};
use crate::rebasing::{laid_down, rebase_aborted, rebase_landed};
use crate::reading::lemma_status_only_reads;
use crate::recording::{
    kept, lasting, lemma_cleared_keeps, lemma_dropped_keeps, lemma_lasting_names, lemma_log_limit, plain_head,
    recorded_note,
};
use crate::repo::{
    blob_of, branch_of, git_file, head_files, head_id, head_on_branch, head_ref, index_of, readable, reference_of,
    reference_written, tree_at, written,
};
use crate::revisions::revision;
use crate::stages::dropped;
use crate::stashing::{entries_of, saved_tree, stash_applied};
use crate::storage::{
    compact, lemma_git_files_differ, lemma_head_detached, lemma_head_on_branch, lemma_head_updated, lemma_log_keeps,
    lemma_reference_read_back, lemma_written,
};
use crate::stowing::{lemma_move_spares, lemma_stash_given_back, lemma_write};
use crate::switching::{switched_away, switched_to};
use crate::system::{below, Machine, Thing};
use crate::text::starts;
use crate::trees::{storable, tree_bytes, Files};
use crate::worktree::{left_alone, lemma_walk_gives_back, tree_written};

verus! {

/// Whether the trees that a checkout moves between hold nothing that lies in the directory of the
/// repository.
pub open spec fn proper_move(m: Machine, s: Screen, root: Seq<char>, id: Seq<char>) -> bool {
    let n = branch_remembered(m, root);
    &&& trio_read(n, s, root).2 matches Ok(t) ==> apart(t.head)
    &&& tree_at(n, root, id) matches Some(t) ==> ascending(t) && apart(t)
}

/// A checkout leaves the files of the repository alone, but for the index and the note of the branch that
/// it leaves.
#[verifier::spinoff_prover]
#[verifier::rlimit(40)]
proof fn lemma_checkout_keeps(m: Machine, s: Screen, root: Seq<char>, id: Seq<char>, name: Seq<char>)
    requires
        checked_out(m, s, root, id).status == 0,
        ascending(m.files),
        proper_move(m, s, root, id),
        lookup(m.files, git_file(root, name)) matches Some(Thing::File { .. }),
        name != "PREV_HEAD"@,
        name != "index"@,
    ensures
        kept(m, checked_out(m, s, root, id).m, root, name),
{
    let n = branch_remembered(m, root);
    lemma_git_files_differ(root, "PREV_HEAD"@, name);
    lemma_git_files_differ(root, "index"@, name);
    if let Some(b) = branch_of(m, root) {
        let bytes = encode_utf8(b + "\n"@);
        lemma_written(m, git_file(root, "PREV_HEAD"@), bytes, git_file(root, name));
        if written(m, git_file(root, "PREV_HEAD"@), bytes).1 is Ok {
            lemma_write(m, git_file(root, "PREV_HEAD"@), bytes, git_file(root, name));
        }
    }
    let new = tree_at(n, root, id)->0;
    let (n1, u, got) = trio_read(n, s, root);
    let t = got->Ok_0;
    lemma_walk_gives_back(n, root);
    assert(n1.files == n.files && n1.memory_limit == n.memory_limit);
    assert(checked_out(m, s, root, id) == tree_checked_out(n1, u, root, t, new));
    let n2 = tree_written(n1, root, t.head, new, false).0;
    lemma_move_spares(n1, root, t.head, new, false, name);
    lemma_written(n2, git_file(root, "index"@), tree_bytes(carried(t, new)), git_file(root, name));
}

proof fn lemma_special_names(name: Seq<char>)
    ensures
        "HEAD"@ != "PREV_HEAD"@,
        "HEAD"@ != "index"@,
        "HEAD"@ != "logs/HEAD"@,
        "HEAD"@ != "REBASE_STATE"@,
        lasting("HEAD"@),
        starts(name, "refs/"@) ==> name != "PREV_HEAD"@ && name != "index"@ && name != "HEAD"@ && name
            != "logs/HEAD"@ && name != "REBASE_STATE"@ && lasting(name),
{
    reveal_strlit("HEAD");
    reveal_strlit("PREV_HEAD");
    reveal_strlit("REBASE_STATE");
    reveal_strlit("index");
    reveal_strlit("logs/HEAD");
    reveal_strlit("refs/");
    lemma_lasting_names(name);
    assert("HEAD"@.len() == 4 && "PREV_HEAD"@.len() == 9 && "index"@.len() == 5 && "logs/HEAD"@.len() == 9);
    assert("REBASE_STATE"@.len() == 12);
    assert("PREV_HEAD"@[0] == 'P' && "index"@[0] == 'i' && "REBASE_STATE"@[0] == 'R');
    if starts(name, "refs/"@) {
        assert(name.subrange(0, 5)[0] == name[0]);
        assert("refs/"@[0] == 'r');
    }
}

proof fn lemma_branch_name(branch: Seq<char>)
    ensures
        starts("refs/heads/"@ + branch, "refs/"@),
{
    reveal_strlit("refs/");
    reveal_strlit("refs/heads/");
    let name = "refs/heads/"@ + branch;
    assert(name.subrange(0, 5) =~= "refs/"@);
}

/// A fast-forward that succeeds leaves HEAD, on the same branch, on the commit that was merged.
pub proof fn lemma_fast_forward_arrives(
    m: Machine,
    s: Screen,
    root: Seq<char>,
    target: Seq<char>,
    head: Seq<char>,
    other: Seq<char>,
)
    requires
        fast_forwarded(m, s, root, target, head, other).status == 0,
        ascending(m.files),
        proper_move(m, s, root, other),
        plain_head(m, root),
        compact(other),
        !starts(other, "ref: "@),
        encode_utf8(other + "\n"@).len() <= m.memory_limit,
    ensures
        head_id(fast_forwarded(m, s, root, target, head, other).m, root) == Some(other),
        head_ref(fast_forwarded(m, s, root, target, head, other).m, root) == head_ref(m, root),
{
    let d = checked_out(m, s, root, other);
    lemma_special_names("HEAD"@);
    lemma_checkout_keeps(m, s, root, other, "HEAD"@);
    assert(readable(d.m, git_file(root, "HEAD"@)) == readable(m, git_file(root, "HEAD"@)));
    if let Some(name) = head_ref(m, root) {
        lemma_special_names(name);
    }
    lemma_head_updated(d.m, root, other, "merge "@ + target + ": Fast-forward"@);
}

/// Once HEAD is put on a branch, it stands on the commit of that branch.
proof fn lemma_on_branch(m: Machine, root: Seq<char>, branch: Seq<char>, id: Seq<char>, action: Seq<char>)
    requires
        head_on_branch(m, root, branch, action).1 is Ok,
        compact(branch),
        encode_utf8("ref: refs/heads/"@ + branch + "\n"@).len() <= m.memory_limit,
        reference_of(m, root, "refs/heads/"@ + branch) == Some(id),
        lookup(m.files, git_file(root, "refs/heads/"@ + branch)) matches Some(Thing::File { .. }),
    ensures
        ({
            let after = head_on_branch(m, root, branch, action).0;
            &&& branch_of(after, root) == Some(branch)
            &&& head_ref(after, root) == Some("refs/heads/"@ + branch)
            &&& head_id(after, root) == Some(id)
            &&& kept(m, after, root, "refs/heads/"@ + branch)
            &&& lookup(after.files, git_file(root, "HEAD"@)) matches Some(Thing::File { .. })
            &&& after.memory_limit == m.memory_limit
        }),
{
    let name = "refs/heads/"@ + branch;
    lemma_branch_name(branch);
    lemma_special_names(name);
    lemma_head_on_branch(m, root, branch, action);
    let text = "ref: refs/heads/"@ + branch + "\n"@;
    let n = written(m, git_file(root, "HEAD"@), encode_utf8(text)).0;
    let after = head_on_branch(m, root, branch, action).0;
    lemma_git_files_differ(root, "HEAD"@, name);
    lemma_written(m, git_file(root, "HEAD"@), encode_utf8(text), git_file(root, name));
    assert(readable(n, git_file(root, name)) == readable(m, git_file(root, name)));
    if let Some(found) = head_id(n, root) {
        lemma_log_keeps(n, root, head_id(m, root), found, action, name);
        lemma_log_keeps(n, root, head_id(m, root), found, action, "HEAD"@);
        lemma_log_limit(n, root, head_id(m, root), found, action);
    }
    assert(readable(after, git_file(root, name)) == readable(m, git_file(root, name)));
    let r = head_ref(after, root)->0;
    assert(r =~= r.subrange(0, "refs/heads/"@.len() as int) + r.subrange("refs/heads/"@.len() as int, r.len() as int));
    assert(r =~= name);
}

/// A switch that succeeds leaves HEAD on the branch, and so on the commit of that branch.
pub proof fn lemma_switch_arrives(m: Machine, s: Screen, root: Seq<char>, branch: Seq<char>, announce: bool)
    requires
        switched_to(m, s, root, branch, announce).status == 0,
        branch_of(m, root) != Some(branch),
        ascending(m.files),
        proper_move(m, s, root, reference_of(m, root, "refs/heads/"@ + branch)->0),
        lookup(m.files, git_file(root, "refs/heads/"@ + branch)) matches Some(Thing::File { .. }),
        compact(branch),
        encode_utf8("ref: refs/heads/"@ + branch + "\n"@).len() <= m.memory_limit,
    ensures
        ({
            let after = switched_to(m, s, root, branch, announce).m;
            &&& branch_of(after, root) == Some(branch)
            &&& head_id(after, root) == reference_of(m, root, "refs/heads/"@ + branch)
        }),
{
    let name = "refs/heads/"@ + branch;
    let id = reference_of(m, root, name)->0;
    let d = checked_out(m, s, root, id);
    lemma_branch_name(branch);
    lemma_special_names(name);
    lemma_checkout_keeps(m, s, root, id, name);
    assert(readable(d.m, git_file(root, name)) == readable(m, git_file(root, name)));
    let from = match branch_of(d.m, root) {
        Some(b) => b,
        None => "HEAD"@,
    };
    lemma_on_branch(d.m, root, branch, id, "checkout: moving from "@ + from + " to "@ + branch);
}

/// A move to a commit itself leaves HEAD on that commit and on no branch.
pub proof fn lemma_detached_arrives(m: Machine, s: Screen, root: Seq<char>, rev: Seq<char>)
    requires
        switched_away(m, s, root, rev).status == 0,
        compact(revision(m, root, rev)->0),
        !starts(revision(m, root, rev)->0, "ref: "@),
        encode_utf8(revision(m, root, rev)->0 + "\n"@).len() <= checked_out(
            m,
            s,
            root,
            revision(m, root, rev)->0,
        ).m.memory_limit,
    ensures
        branch_of(switched_away(m, s, root, rev).m, root) is None,
        head_id(switched_away(m, s, root, rev).m, root) == revision(m, root, rev),
{
    let id = revision(m, root, rev)->0;
    let d = checked_out(m, s, root, id);
    lemma_head_detached(d.m, root, id, "checkout: moving to "@ + rev);
}

/// Once a branch is moved and HEAD goes back on it, and the record of a rebase is forgotten, HEAD is on
/// the branch and stands where it was moved to.
proof fn lemma_returned(m: Machine, root: Seq<char>, branch: Seq<char>, id: Seq<char>, action: Seq<char>)
    requires
        reference_written(m, root, "refs/heads/"@ + branch, id).1 is Ok,
        head_on_branch(reference_written(m, root, "refs/heads/"@ + branch, id).0, root, branch, action).1 is Ok,
        compact(branch),
        compact(id),
        encode_utf8("ref: refs/heads/"@ + branch + "\n"@).len() <= m.memory_limit,
        encode_utf8(id + "\n"@).len() <= m.memory_limit,
    ensures
        ({
            let n = reference_written(m, root, "refs/heads/"@ + branch, id).0;
            let after = rebase_cleared(head_on_branch(n, root, branch, action).0, root);
            &&& branch_of(after, root) == Some(branch)
            &&& head_id(after, root) == Some(id)
            &&& reference_of(after, root, "refs/heads/"@ + branch) == Some(id)
        }),
{
    let name = "refs/heads/"@ + branch;
    let n = reference_written(m, root, name, id).0;
    lemma_branch_name(branch);
    lemma_special_names(name);
    lemma_reference_read_back(m, root, name, id);
    lemma_written(m, git_file(root, name), encode_utf8(id + "\n"@), git_file(root, name));
    lemma_on_branch(n, root, branch, id, action);
    let n1 = head_on_branch(n, root, branch, action).0;
    let n2 = dropped(n1, root, "REBASE_STATE"@);
    let after = rebase_cleared(n1, root);
    lemma_dropped_keeps(n1, root, "REBASE_STATE"@, name);
    lemma_dropped_keeps(n1, root, "REBASE_STATE"@, "HEAD"@);
    lemma_cleared_keeps(n2, root, name);
    lemma_cleared_keeps(n2, root, "HEAD"@);
    assert(readable(after, git_file(root, name)) == readable(n1, git_file(root, name)));
    assert(readable(after, git_file(root, "HEAD"@)) == readable(n1, git_file(root, "HEAD"@)));
}

/// A rebase that is given up leaves HEAD on the branch that was rebased, and the branch where it stood
/// before.
pub proof fn lemma_abort_returns(m: Machine, s: Screen, root: Seq<char>, x: Rebase)
    requires
        rebase_of(m, root) == Some(x),
        rebase_aborted(m, s, root).status == 0,
        compact(x.branch),
        compact(x.original),
        ({
            let limit = laid_down(m, s, root, x.original).m.memory_limit;
            &&& encode_utf8("ref: refs/heads/"@ + x.branch + "\n"@).len() <= limit
            &&& encode_utf8(x.original + "\n"@).len() <= limit
        }),
    ensures
        branch_of(rebase_aborted(m, s, root).m, root) == Some(x.branch),
        head_id(rebase_aborted(m, s, root).m, root) == Some(x.original),
{
    let d = laid_down(m, s, root, x.original);
    lemma_returned(
        d.m,
        root,
        x.branch,
        x.original,
        "rebase (abort): returning to "@ + ("refs/heads/"@ + x.branch),
    );
}

/// A rebase that has nothing left to replay leaves HEAD on the branch that was rebased, and the branch
/// where the replay ended.
pub proof fn lemma_rebase_lands(m: Machine, s: Screen, root: Seq<char>, x: Rebase)
    requires
        rebase_landed(m, s, root, x).status == 0,
        compact(x.branch),
        compact(head_id(m, root)->0),
        encode_utf8("ref: refs/heads/"@ + x.branch + "\n"@).len() <= m.memory_limit,
        encode_utf8(head_id(m, root)->0 + "\n"@).len() <= m.memory_limit,
    ensures
        branch_of(rebase_landed(m, s, root, x).m, root) == Some(x.branch),
        head_id(rebase_landed(m, s, root, x).m, root) == head_id(m, root),
        reference_of(rebase_landed(m, s, root, x).m, root, "refs/heads/"@ + x.branch) == head_id(m, root),
{
    lemma_returned(
        m,
        root,
        x.branch,
        head_id(m, root)->0,
        "rebase (finish): returning to "@ + ("refs/heads/"@ + x.branch),
    );
}

// ---------------------------------------------------------------------------
// Work that is not committed
// ---------------------------------------------------------------------------

/// Whether a path that HEAD or the index holds is not the same in HEAD, the index and the working tree.
pub open spec fn uncommitted(t: Trio, path: Seq<char>) -> bool {
    &&& lookup(t.head, path) is Some || lookup(t.index, path) is Some
    &&& !(lookup(t.head, path) == lookup(t.index, path) && lookup(t.index, path) == lookup(t.work, path))
}

proof fn lemma_dirty(t: Trio, path: Seq<char>)
    ensures
        dirty(t).contains(path) <==> uncommitted(t, path),
{
    let none: Names = seq![];
    let names = either(t.index, t.head);
    let all = keys_of(names);
    let test = dirty_test(t);
    lemma_with_keys(none, t.index, path);
    lemma_with_keys(with_keys(none, t.index), t.head, path);
    if dirty(t).contains(path) {
        lemma_kept_passes(all, test, path);
        let i = choose|i: int| 0 <= i < all.len() && all[i] == path;
        lemma_lookup_at(names, i);
        assert(lookup(names, path) is Some);
        lemma_held(t.index, path);
        lemma_held(t.head, path);
    }
    if uncommitted(t, path) {
        if lookup(t.index, path) is Some {
            let i = lemma_lookup_place(t.index, path);
            assert(t.index[i].0 == path);
        } else {
            let i = lemma_lookup_place(t.head, path);
            assert(t.head[i].0 == path);
        }
        let k = lemma_lookup_place(names, path);
        assert(all[k] == path);
        lemma_kept_holds(all, test, path);
    }
}

/// A path that stands in a tree is found there.
proof fn lemma_held(t: Files, path: Seq<char>)
    ensures
        (exists|i: int| 0 <= i < t.len() && (#[trigger] t[i]).0 == path) ==> lookup(t, path) is Some,
    decreases t.len(),
{
    if exists|i: int| 0 <= i < t.len() && (#[trigger] t[i]).0 == path {
        let i = choose|i: int| 0 <= i < t.len() && (#[trigger] t[i]).0 == path;
        if t[0].0 != path {
            let rest = t.subrange(1, t.len() as int);
            assert(rest[i - 1].0 == path);
            lemma_held(rest, path);
        }
    }
}

/// A checkout that succeeds writes over no work: where it changes a path, that path held nothing that was
/// not committed, and no file stood there that is recorded nowhere. One that would is refused and changes
/// no file.
pub proof fn lemma_checkout_spares_work(m: Machine, s: Screen, root: Seq<char>, t: Trio, new: Files, path: Seq<char>)
    ensures
        ({
            let d = tree_checked_out(m, s, root, t, new);
            let over_work = uncommitted(t, path) && lookup(new, path) != lookup(t.head, path);
            let over_stray = lookup(new, path) is Some && lookup(t.work, path) is Some && lookup(t.index, path) is None
                && lookup(t.head, path) is None;
            over_work || over_stray ==> d.status != 0 && d.m == m
        }),
{
    let test = rewritten_test(t.head, new);
    lemma_dirty(t, path);
    if uncommitted(t, path) && lookup(new, path) != lookup(t.head, path) {
        lemma_kept_holds(dirty(t), test, path);
        let i = choose|i: int| 0 <= i < blocking(t, new).len() && blocking(t, new)[i] == path;
        assert(blocking(t, new).len() > 0);
    }
    if lookup(new, path) is Some && lookup(t.work, path) is Some && lookup(t.index, path) is None && lookup(
        t.head,
        path,
    ) is None {
        let all = keys_of(new);
        let k = lemma_lookup_place(new, path);
        assert(all[k] == path);
        lemma_kept_holds(all, unrecorded_test(t), path);
        let i = choose|i: int| 0 <= i < collisions(t, new).len() && collisions(t, new)[i] == path;
        assert(collisions(t, new).len() > 0);
    }
}

/// A commit of nothing new is refused and changes no file, unless an empty one is asked for or an operation
/// is to be finished.
pub proof fn lemma_nothing_to_commit(
    m: Machine,
    s: Screen,
    root: Seq<char>,
    g: Overrides,
    x: CommitWish,
    message: Seq<char>,
    previous: Option<Listed>,
    index: Files,
)
    requires
        index_of(m, root) == Some(index),
        commit_base(m, s, root, x.amend, previous).1 matches Ok(b) ==> b.1 == index,
        commit_base(m, s, root, x.amend, previous).1 is Ok,
        !x.allow_empty,
        pending(m, root) is None,
    ensures
        commit_recorded(m, s, root, g, x, seq![], message, previous).status == 1,
        commit_recorded(m, s, root, g, x, seq![], message, previous).m.files == m.files,
{
    let u = commit_base(m, s, root, x.amend, previous).0;
    let none: Seq<Seq<char>> = seq![];
    assert(pathspecs_of(m.cwd, root, none) =~= none);
    lemma_status_only_reads(m, u, none);
}

/// The parents of a new commit: the commit that HEAD stands on, and behind it the one that is being merged;
/// of one that amends, the parents of the commit that it replaces; of the first, none. Without a sign-off
/// the message is the one that was given, and one that amends keeps the time of the commit that it replaces.
pub proof fn lemma_new_commit(
    m: Machine,
    s: Screen,
    root: Seq<char>,
    g: Overrides,
    x: CommitWish,
    message: Seq<char>,
)
    requires
        commit_base(m, s, root, x.amend, head_record(m, root)).1 is Ok,
    ensures
        ({
            let n = recorded_note(m, s, root, g, x, message);
            &&& !x.signoff ==> n.message == message
            &&& match head_record(m, root) {
                None => n.parents.len() == 0,
                Some((id, before)) => if x.amend {
                    n.parents == before.parents && n.timestamp == before.timestamp
                } else {
                    n.parents == match pending(m, root) {
                        Some((kind, other)) => if kind == "MERGE_HEAD"@ {
                            seq![id, other]
                        } else {
                            seq![id]
                        },
                        None => seq![id],
                    }
                },
            }
        }),
{
}

/// The stash that is put in place is the one that was named, counted from zero: the index is the one that
/// it kept, and every file of its work stands in the working tree with the content that it kept, but for one
/// in which it agrees with HEAD, which stays.
pub proof fn lemma_named_stash(
    m: Machine,
    s: Screen,
    root: Seq<char>,
    position: nat,
    work: Files,
    index: Files,
    i: int,
)
    requires
        position < entries_of(m, root).len(),
        stash_applied(m, s, root, position, false).status == 0,
        saved_tree(m, root, entries_of(m, root)[position as int].id, "work"@) == Some(work),
        saved_tree(m, root, entries_of(m, root)[position as int].id, "index"@) == Some(index),
        storable(index),
        tree_bytes(index).len() <= m.memory_limit,
        ascending(m.files),
        ascending(work),
        apart(work),
        0 <= i < work.len(),
    ensures
        ({
            let after = stash_applied(m, s, root, position, false).m;
            let at = below(root, work[i].0);
            &&& index_of(after, root) == Some(index)
            &&& if left_alone(m, root, head_files(m, root), work[i].0, work[i].1, false) {
                lookup(after.files, at) == lookup(m.files, at)
            } else {
                &&& blob_of(m, root, work[i].1.hash) is Some
                &&& lookup(after.files, at) == Some(
                    placed_thing(work[i].1, blob_of(m, root, work[i].1.hash)->0),
                )
            }
        }),
{
    lemma_stash_given_back(m, s, root, work, index, i);
}

} // verus!
