//! Moving the working tree to another commit without losing work.

use vstd::prelude::*;
use vstd::utf8::encode_utf8;

use crate::bytes::bytes_of;
use crate::common::{done, require_tree, snapshot, tree_needed, trio_read, Snapshot, Trio};
use crate::console::{cannot_write, complained, failed, write_message, Done, Io, Screen};
use crate::names::{either, kept, keys_of_either, same_entry};
use crate::order::{
    ascending, before, bind, keys_of, lemma_before_irreflexive, lemma_bind_ascending, lemma_lookup_bind,
    lemma_lookup_last, lemma_lookup_unbind, lemma_unbind_ascending, lookup, unbind, Duplicate,
};
use crate::progress::{pending, pending_operation, rebase_of, rebasing};
use crate::repo::{
    branch_before, branch_of, current_branch, git_file, git_path, index_stored, store_index, write_vfs, written,
};
use crate::status::{frame_all, framed};
use crate::storage::{compact, lemma_reference_read_back};
use crate::system::{Machine, System};
use crate::text::{copy_text, join2, join3, join4, join5, lemma_texts_push, same, texts};
use crate::trees::{Files, Tree};
use crate::worktree::{tree_written, update_work_tree};

verus! {

// ---------------------------------------------------------------------------
// What stands in the way
// ---------------------------------------------------------------------------

/// Whether a path that HEAD or the index holds is not the same in HEAD, the index and the working
/// tree.
pub open spec fn dirty_at(t: Trio, p: Seq<char>) -> bool {
    lookup(t.index, p) is None || lookup(t.work, p) != lookup(t.index, p) || lookup(t.head, p)
        != lookup(t.index, p)
}

/// The test for paths that hold work which is not committed.
pub open spec fn dirty_test(t: Trio) -> spec_fn(Seq<char>) -> bool {
    |p: Seq<char>| dirty_at(t, p)
}

/// The paths that hold work which is not committed.
pub open spec fn dirty(t: Trio) -> Seq<Seq<char>> {
    kept(keys_of(either(t.index, t.head)), dirty_test(t))
}

/// The paths that hold work which is not committed.
pub fn dirty_paths(snapshot: &Snapshot) -> (r: Vec<String>)
    ensures
        texts(r@) == dirty(snapshot@),
{
    let ghost t = snapshot@;
    let names = keys_of_either(&snapshot.index, &snapshot.head);
    let ghost all = keys_of(names@);
    let mut v: Vec<String> = Vec::new();
    let mut i: usize = 0;
    assert(texts(v@) =~= seq![]);
    while i < names.len()
        invariant
            i <= names@.len(),
            all == keys_of(names@),
            t == snapshot@,
            texts(v@) == kept(all.take(i as int), dirty_test(t)),
        decreases names@.len() - i,
    {
        broadcast use lemma_texts_push;

        assert(all.take(i + 1).drop_last() =~= all.take(i as int));
        let p = names.key_at(i);
        assert(all.take(i + 1).last() == p@);
        let staged = snapshot.index.get(p);
        if staged.is_none() || !same_entry(snapshot.work.get(p), staged) || !same_entry(
            snapshot.head.get(p),
            staged,
        ) {
            v.push(copy_text(p));
        }
        i += 1;
    }
    assert(all.take(i as int) =~= all);
    v
}

/// The test for paths that a move from one tree to another rewrites.
pub open spec fn rewritten_test(from: Files, to: Files) -> spec_fn(Seq<char>) -> bool {
    |p: Seq<char>| lookup(to, p) != lookup(from, p)
}

/// The paths in which a move to a tree would overwrite work.
pub open spec fn blocking(t: Trio, target: Files) -> Seq<Seq<char>> {
    kept(dirty(t), rewritten_test(t.head, target))
}

/// The paths in which a move to a tree would overwrite work.
pub fn blocking_changes(snapshot: &Snapshot, target: &Tree) -> (r: Vec<String>)
    ensures
        texts(r@) == blocking(snapshot@, target@),
{
    let paths = dirty_paths(snapshot);
    let ghost all = texts(paths@);
    let mut v: Vec<String> = Vec::new();
    let mut i: usize = 0;
    assert(texts(v@) =~= seq![]);
    while i < paths.len()
        invariant
            i <= paths@.len(),
            all == texts(paths@),
            texts(v@) == kept(all.take(i as int), rewritten_test(snapshot@.head, target@)),
        decreases paths@.len() - i,
    {
        broadcast use lemma_texts_push;

        assert(all.take(i + 1).drop_last() =~= all.take(i as int));
        let p = paths[i].as_str();
        assert(all.take(i + 1).last() == p@);
        if !same_entry(target.get(p), snapshot.head.get(p)) {
            v.push(copy_text(p));
        }
        i += 1;
    }
    assert(all.take(i as int) =~= all);
    v
}

/// The test for files of the working tree that are recorded nowhere.
pub open spec fn unrecorded_test(t: Trio) -> spec_fn(Seq<char>) -> bool {
    |p: Seq<char>|
        lookup(t.work, p) is Some && lookup(t.index, p) is None && lookup(t.head, p) is None
}

/// The files that are recorded nowhere and that a move to a tree would write over.
pub open spec fn collisions(t: Trio, target: Files) -> Seq<Seq<char>> {
    kept(keys_of(target), unrecorded_test(t))
}

/// The files that are recorded nowhere and that a move to a tree would write over.
pub fn untracked_collisions(snapshot: &Snapshot, target: &Tree) -> (r: Vec<String>)
    ensures
        texts(r@) == collisions(snapshot@, target@),
{
    let ghost t = snapshot@;
    let ghost all = keys_of(target@);
    let mut v: Vec<String> = Vec::new();
    let mut i: usize = 0;
    assert(texts(v@) =~= seq![]);
    while i < target.len()
        invariant
            i <= target@.len(),
            all == keys_of(target@),
            t == snapshot@,
            texts(v@) == kept(all.take(i as int), unrecorded_test(t)),
        decreases target@.len() - i,
    {
        broadcast use lemma_texts_push;

        assert(all.take(i + 1).drop_last() =~= all.take(i as int));
        let p = target.key_at(i);
        assert(all.take(i + 1).last() == p@);
        if snapshot.work.contains_key(p) && !snapshot.index.contains_key(p)
            && !snapshot.head.contains_key(p) {
            v.push(copy_text(p));
        }
        i += 1;
    }
    assert(all.take(i as int) =~= all);
    v
}

/// The complaint about files that would be written over.
pub open spec fn overwrite_complaint(v: Seq<Seq<char>>, verb: Seq<char>, advice: Seq<char>) -> Seq<char> {
    "error: The following untracked working tree files would be overwritten by "@ + verb + ":\n"@
        + framed("\t"@, v, "\n"@) + "Please move or remove them before you "@ + advice
        + ".\nAborting\n"@
}

/// The screen after files that would be written over are named, and whether there are any.
pub open spec fn overwrite_refused(
    s: Screen,
    t: Trio,
    target: Files,
    verb: Seq<char>,
    advice: Seq<char>,
) -> (Screen, bool) {
    let v = collisions(t, target);
    if v.len() == 0 {
        (s, false)
    } else {
        (complained(s, overwrite_complaint(v, verb, advice)), true)
    }
}

/// Names the files that would be written over, where there are any.
pub fn refuse_untracked_overwrite(
    snapshot: &Snapshot,
    target: &Tree,
    verb: &str,
    advice: &str,
    io: &mut Io,
) -> (r: bool)
    ensures
        (final(io)@, r) == overwrite_refused(old(io)@, snapshot@, target@, verb@, advice@),
{
    let v = untracked_collisions(snapshot, target);
    assert(texts(v@).len() == v@.len());
    if v.len() == 0 {
        return false;
    }
    let mut out = join4(
        "error: The following untracked working tree files would be overwritten by ",
        verb,
        ":\n",
        frame_all("\t", v.as_slice(), "\n").as_str(),
    );
    out.append("Please move or remove them before you ");
    out.append(advice);
    out.append(".\nAborting\n");
    io.print_err(out.as_str());
    true
}

/// Whether some paths are the same in the working tree and in the index.
pub open spec fn all_staged(t: Trio, paths: Seq<Seq<char>>) -> bool {
    forall|i: int|
        0 <= i < paths.len() ==> lookup(t.work, #[trigger] paths[i]) == lookup(t.index, paths[i])
}

/// Whether some paths are the same in the working tree and in the index.
pub fn only_staged(snapshot: &Snapshot, paths: &[String]) -> (r: bool)
    ensures
        r == all_staged(snapshot@, texts(paths@)),
{
    let ghost all = texts(paths@);
    let mut i: usize = 0;
    while i < paths.len()
        invariant
            i <= paths@.len(),
            all == texts(paths@),
            forall|k: int|
                0 <= k < i ==> lookup(snapshot@.work, #[trigger] all[k]) == lookup(
                    snapshot@.index,
                    all[k],
                ),
        decreases paths@.len() - i,
    {
        assert(all.len() == paths@.len());
        assert(all[i as int] == paths@[i as int]@);
        let p = paths[i].as_str();
        if !same_entry(snapshot.work.get(p), snapshot.index.get(p)) {
            return false;
        }
        i += 1;
    }
    true
}

// ---------------------------------------------------------------------------
// What is carried across
// ---------------------------------------------------------------------------

/// A tree with the entries of the index that HEAD does not hold put over it.
pub open spec fn staged_over(t: Files, index: Files, head: Files) -> Files
    decreases index.len(),
{
    if index.len() == 0 {
        t
    } else {
        let rest = staged_over(t, index.drop_last(), head);
        if lookup(head, index.last().0) != Some(index.last().1) {
            bind(rest, index.last().0, index.last().1)
        } else {
            rest
        }
    }
}

/// A tree without the paths of HEAD that the index does not hold.
pub open spec fn deletions_over(t: Files, head: Files, index: Files) -> Files
    decreases head.len(),
{
    if head.len() == 0 {
        t
    } else {
        let rest = deletions_over(t, head.drop_last(), index);
        if lookup(index, head.last().0) is None {
            unbind(rest, head.last().0)
        } else {
            rest
        }
    }
}

/// The index after a move to a tree: what was staged and not committed is kept.
pub open spec fn carried(t: Trio, target: Files) -> Files {
    deletions_over(staged_over(target, t.index, t.head), t.head, t.index)
}

/// The index after a move to a tree.
pub fn carried_index(snapshot: &Snapshot, target: &Tree) -> (r: Tree)
    ensures
        r@ == carried(snapshot@, target@),
{
    let ghost t = snapshot@;
    let mut tree = target.duplicate();
    let mut i: usize = 0;
    assert(t.index.take(0) =~= seq![]);
    while i < snapshot.index.len()
        invariant
            i <= t.index.len(),
            t == snapshot@,
            tree@ == staged_over(target@, t.index.take(i as int), t.head),
        decreases t.index.len() - i,
    {
        assert(t.index.take(i + 1).drop_last() =~= t.index.take(i as int));
        let p = snapshot.index.key_at(i);
        let e = snapshot.index.value_at(i);
        if !same_entry(snapshot.head.get(p), Some(e)) {
            tree.insert(copy_text(p), e.duplicate());
        }
        i += 1;
    }
    assert(t.index.take(i as int) =~= t.index);
    let ghost rest = tree@;
    let mut k: usize = 0;
    assert(t.head.take(0) =~= seq![]);
    while k < snapshot.head.len()
        invariant
            k <= t.head.len(),
            t == snapshot@,
            tree@ == deletions_over(rest, t.head.take(k as int), t.index),
        decreases t.head.len() - k,
    {
        assert(t.head.take(k + 1).drop_last() =~= t.head.take(k as int));
        let p = snapshot.head.key_at(k);
        if !snapshot.index.contains_key(p) {
            tree.remove(p);
        }
        k += 1;
    }
    assert(t.head.take(k as int) =~= t.head);
    tree
}

proof fn lemma_staged_over(t: Files, index: Files, head: Files, p: Seq<char>)
    requires
        ascending(t),
        ascending(index),
    ensures
        ascending(staged_over(t, index, head)),
        lookup(staged_over(t, index, head), p) == (if lookup(index, p) is Some && lookup(index, p)
            != lookup(head, p) {
            lookup(index, p)
        } else {
            lookup(t, p)
        }),
    decreases index.len(),
{
    if index.len() > 0 {
        lemma_lookup_last(index, p);
        let less = index.drop_last();
        lemma_staged_over(t, less, head, p);
        let rest = staged_over(t, less, head);
        lemma_bind_ascending(rest, index.last().0, index.last().1);
        lemma_lookup_bind(rest, index.last().0, index.last().1, p);
        if p == index.last().0 {
            lemma_lookup_prefix_none(index);
        }
    } else {
        assert(lookup(index, p) is None);
    }
}

proof fn lemma_lookup_prefix_none(m: Files)
    requires
        ascending(m),
        m.len() > 0,
    ensures
        lookup(m.drop_last(), m.last().0) is None,
{
    let head = m.drop_last();
    assert forall|i: int| 0 <= i < head.len() implies (#[trigger] head[i]).0 != m.last().0 by {
        assert(before(m[i].0, m[m.len() - 1].0));
        lemma_before_irreflexive(m.last().0);
    }
    crate::order::lemma_lookup_none(head, m.last().0);
}

proof fn lemma_deletions_over(t: Files, head: Files, index: Files, p: Seq<char>)
    requires
        ascending(t),
        ascending(head),
    ensures
        ascending(deletions_over(t, head, index)),
        lookup(deletions_over(t, head, index), p) == (if lookup(head, p) is Some && lookup(
            index,
            p,
        ) is None {
            None
        } else {
            lookup(t, p)
        }),
    decreases head.len(),
{
    if head.len() > 0 {
        lemma_lookup_last(head, p);
        let less = head.drop_last();
        lemma_deletions_over(t, less, index, p);
        let rest = deletions_over(t, less, index);
        lemma_unbind_ascending(rest, head.last().0);
        lemma_lookup_unbind(rest, head.last().0, p);
        if p == head.last().0 {
            lemma_lookup_prefix_none(head);
        }
    } else {
        assert(lookup(head, p) is None);
    }
}

/// A move keeps exactly what is staged and not committed: where the index and HEAD hold the same
/// for a path, the new index holds what the target does, and everywhere else it stays as it was.
pub proof fn lemma_carried(t: Trio, target: Files, p: Seq<char>)
    requires
        ascending(t.index),
        ascending(t.head),
        ascending(target),
    ensures
        lookup(carried(t, target), p) == (if lookup(t.index, p) == lookup(t.head, p) {
            lookup(target, p)
        } else {
            lookup(t.index, p)
        }),
        ascending(carried(t, target)),
{
    lemma_staged_over(target, t.index, t.head, p);
    lemma_deletions_over(staged_over(target, t.index, t.head), t.head, t.index, p);
}

// ---------------------------------------------------------------------------
// Checking a commit out
// ---------------------------------------------------------------------------

/// Why moving to another commit has to wait.
pub open spec fn move_refusal(m: Machine, root: Seq<char>) -> Option<Seq<char>> {
    if rebase_of(m, root) is Some {
        Some(
            "fatal: cannot switch branch while rebasing\nConsider \"git rebase --abort\" or \"git rebase --continue\".\n"@,
        )
    } else {
        match pending(m, root) {
            None => None,
            Some((kind, _)) => {
                let (verb, doing) = if kind == "REVERT_HEAD"@ {
                    ("revert"@, "reverting"@)
                } else if kind == "CHERRY_PICK_HEAD"@ {
                    ("cherry-pick"@, "cherry-picking"@)
                } else {
                    ("merge"@, "merging"@)
                };
                Some(
                    "fatal: cannot switch branch while "@ + doing + "\nConsider \"git "@ + verb
                        + " --abort\" to give it up.\n"@,
                )
            },
        }
    }
}

/// Why moving to another commit has to wait.
pub fn unfinished_operation(system: &System, root: &str) -> (r: Option<String>)
    ensures
        crate::text::opt_text(r) == move_refusal(system@, root@),
{
    if rebasing(system, root) {
        return Some(
            copy_text(
                "fatal: cannot switch branch while rebasing\nConsider \"git rebase --abort\" or \"git rebase --continue\".\n",
            ),
        );
    }
    match pending_operation(system, root) {
        None => None,
        Some((kind, _)) => {
            let (verb, doing) = if same(kind.as_str(), "REVERT_HEAD") {
                ("revert", "reverting")
            } else if same(kind.as_str(), "CHERRY_PICK_HEAD") {
                ("cherry-pick", "cherry-picking")
            } else {
                ("merge", "merging")
            };
            Some(
                join5(
                    "fatal: cannot switch branch while ",
                    doing,
                    "\nConsider \"git ",
                    verb,
                    " --abort\" to give it up.\n",
                ),
            )
        },
    }
}

/// The complaint about changes that a checkout would overwrite.
pub open spec fn checkout_complaint(v: Seq<Seq<char>>) -> Seq<char> {
    "error: Your local changes to the following files would be overwritten by checkout:\n"@
        + framed("\t"@, v, "\n"@)
        + "Please commit your changes or stash them before you switch branches.\nAborting\n"@
}

/// The branch that is left is remembered.
pub open spec fn branch_remembered(m: Machine, root: Seq<char>) -> Machine {
    match branch_of(m, root) {
        Some(b) => written(m, git_file(root, "PREV_HEAD"@), encode_utf8(b + "\n"@)).0,
        None => m,
    }
}

/// The branch that a move leaves is the one that `-` names afterwards, where the note of it could be
/// written and fits into memory.
pub proof fn lemma_branch_remembered(m: Machine, root: Seq<char>, branch: Seq<char>)
    requires
        branch_of(m, root) == Some(branch),
        compact(branch),
        written(m, git_file(root, "PREV_HEAD"@), encode_utf8(branch + "\n"@)).1 is Ok,
        encode_utf8(branch + "\n"@).len() <= m.memory_limit,
    ensures
        branch_before(branch_remembered(m, root), root) == Some(branch),
{
    lemma_reference_read_back(m, root, "PREV_HEAD"@, branch);
}

/// The move itself, once the three trees are read.
pub open spec fn tree_checked_out(m: Machine, s: Screen, root: Seq<char>, t: Trio, new: Files) -> Done {
    let v = blocking(t, new);
    let (u, refused) = overwrite_refused(s, t, new, "checkout"@, "switch branches"@);
    if v.len() > 0 {
        Done { m, s: complained(s, checkout_complaint(v)), status: 1 }
    } else if refused {
        Done { m, s: u, status: 1 }
    } else {
        match tree_written(m, root, t.head, new, false) {
            (n, Err(e)) => Done {
                m: n,
                s: complained(s, "git switch: "@ + e + "\n"@),
                status: 1,
            },
            (n, Ok(())) => match index_stored(n, root, carried(t, new)) {
                (n2, Err(e)) => failed(n2, s, write_message("the index"@, e)),
                (n2, Ok(())) => Done { m: n2, s, status: 0 },
            },
        }
    }
}

/// Moving the index and the working tree to a commit.
pub open spec fn checked_out(m: Machine, s: Screen, root: Seq<char>, id: Seq<char>) -> Done {
    match move_refusal(m, root) {
        Some(reason) => Done { m, s: complained(s, reason), status: 128 },
        None => {
            let m1 = branch_remembered(m, root);
            match tree_needed(m1, s, root, id) {
                (t, Err(e)) => Done { m: m1, s: t, status: e },
                (t, Ok(new)) => match trio_read(m1, t, root) {
                    (n, u, Err(e)) => Done { m: n, s: u, status: e },
                    (n, u, Ok(trio)) => tree_checked_out(n, u, root, trio, new),
                },
            }
        },
    }
}

fn remember_branch(system: &mut System, root: &str)
    ensures
        final(system)@ == branch_remembered(old(system)@, root@),
{
    if let Some(b) = current_branch(system, root) {
        let line = join2(b.as_str(), "\n");
        let bytes = bytes_of(line.as_str());
        let path = git_path(root, "PREV_HEAD");
        let _ = write_vfs(system, path.as_str(), bytes.as_slice());
    }
}

fn check_out_tree(system: &mut System, root: &str, snapshot: &Snapshot, new: &Tree, io: &mut Io) -> (r: i32)
    ensures
        done(final(system)@, final(io)@, r) == tree_checked_out(
            old(system)@,
            old(io)@,
            root@,
            snapshot@,
            new@,
        ),
{
    let v = blocking_changes(snapshot, new);
    assert(texts(v@).len() == v@.len());
    if v.len() > 0 {
        io.print_err(
            join3(
                "error: Your local changes to the following files would be overwritten by checkout:\n",
                frame_all("\t", v.as_slice(), "\n").as_str(),
                "Please commit your changes or stash them before you switch branches.\nAborting\n",
            ).as_str(),
        );
        return 1;
    }
    if refuse_untracked_overwrite(snapshot, new, "checkout", "switch branches", io) {
        return 1;
    }
    match update_work_tree(system, root, &snapshot.head, new) {
        Ok(()) => {},
        Err(e) => {
            io.print_err(join3("git switch: ", e.as_str(), "\n").as_str());
            return 1;
        },
    }
    let index = carried_index(snapshot, new);
    match store_index(system, root, &index) {
        Ok(()) => 0,
        Err(e) => cannot_write(io, "the index", &e),
    }
}

/// Moves the index and the working tree to a commit.
pub fn checkout_commit(system: &mut System, root: &str, commit: &str, io: &mut Io) -> (r: i32)
    ensures
        done(final(system)@, final(io)@, r) == checked_out(
            old(system)@,
            old(io)@,
            root@,
            commit@,
        ),
{
    if let Some(reason) = unfinished_operation(system, root) {
        io.print_err(reason.as_str());
        return 128;
    }
    remember_branch(system, root);
    let new = match require_tree(system, root, commit, io) {
        Ok(t) => t,
        Err(e) => return e,
    };
    let trio = match snapshot(system, root, io) {
        Ok(x) => x,
        Err(e) => return e,
    };
    check_out_tree(system, root, &trio, &new, io)
}

/// A move that is refused because of work in its way changes no file.
pub proof fn lemma_blocked_move(m: Machine, s: Screen, root: Seq<char>, t: Trio, new: Files)
    requires
        blocking(t, new).len() > 0 || collisions(t, new).len() > 0,
    ensures
        tree_checked_out(m, s, root, t, new).m == m,
        tree_checked_out(m, s, root, t, new).status == 1,
{
}

} // verus!
