//! What a stash keeps: its entry and its two trees are found again.

use vstd::prelude::*;
use vstd::utf8::encode_utf8;

use crate::common::Trio;
use crate::console::Screen;
use crate::journals::{lemma_stashes_read_back, storable_saved};
use crate::names::overlaid;
use crate::numbers::decimal;
use crate::order::{ascending, lookup};
use crate::placing::{
    apart, lemma_entry_in_place, lemma_one_change, lemma_places_differ, lemma_rest_untouched, placed_thing,
};
use crate::reading::lemma_status_only_reads;
use crate::repo::{blob_of, branch_of, git_file, head_files, index_of, index_stored, written};
use crate::stashing::{
    entries_of, entries_stored, entries_text, entry_saved, highest, saved_tree, saved_tree_file, stash_blocked,
    stash_message, stash_restored, trees_saved, Saved,
};
use crate::storage::{lemma_git_files_differ, lemma_index_read_back, lemma_written};
use crate::system::{below, reserved, Act, Machine, Thing};
use crate::trees::{lemma_tree_round_trip, storable, tree_bytes, Files};
use crate::worktree::{left_alone, move_memory, tree_moved, tree_written};

verus! {

/// Whether a plain file of the repository is the same on two machines.
pub open spec fn same_file(a: Machine, b: Machine, at: Seq<char>) -> bool {
    &&& lookup(a.files, at) matches Some(Thing::File { .. })
    &&& lookup(b.files, at) == lookup(a.files, at)
}

pub(crate) proof fn lemma_write(m: Machine, path: Seq<char>, bytes: Seq<u8>, other: Seq<char>)
    requires
        written(m, path, bytes).1 is Ok,
        ascending(m.files),
    ensures
        ascending(written(m, path, bytes).0.files),
        lookup(written(m, path, bytes).0.files, path) == Some(
            (Thing::File { bytes, mode: 0o644, native: false }),
        ),
        other != path && (lookup(m.files, other) matches Some(Thing::File { .. })) ==> same_file(
            m,
            written(m, path, bytes).0,
            other,
        ),
        written(m, path, bytes).0.memory_limit == m.memory_limit,
{
    lemma_one_change(
        m.files,
        Act::PutFile { path, bytes, mode: 0o644 },
        m.disk_limit as nat,
        other,
    );
    lemma_written(m, path, bytes, other);
}

pub(crate) proof fn lemma_move_spares(m: Machine, root: Seq<char>, o: Files, t: Files, force: bool, name: Seq<char>)
    requires
        tree_written(m, root, o, t, force).1 is Ok,
        ascending(m.files),
        ascending(t),
        apart(o),
        apart(t),
        lookup(m.files, git_file(root, name)) matches Some(Thing::File { .. }),
    ensures
        same_file(m, tree_written(m, root, o, t, force).0, git_file(root, name)),
        tree_written(m, root, o, t, force).0.memory_limit == m.memory_limit,
{
    let at = git_file(root, name);
    let inner = ".git/"@ + name;
    let m1 = reserved(m, move_memory(m)).1;
    assert(m1.files == m.files && m1.memory_limit == m.memory_limit);
    assert(tree_moved(m1, root, o, t, force).1 is Ok);
    assert(inner.subrange(0, ".git/"@.len() as int) =~= ".git/"@);
    assert forall|i: int| 0 <= i < o.len() implies at != below(root, (#[trigger] o[i]).0) by {
        lemma_places_differ(root, inner, o[i].0);
    }
    assert forall|i: int| 0 <= i < t.len() implies at != below(root, (#[trigger] t[i]).0) by {
        lemma_places_differ(root, inner, t[i].0);
    }
    lemma_rest_untouched(m1, root, o, t, force, at);
}

proof fn lemma_stash_names(id: nat)
    ensures
        "stash/"@ + decimal(id) + "."@ + "work"@ != "stash/"@ + decimal(id) + "."@ + "index"@,
        "stash/"@ + decimal(id) + "."@ + "work"@ != "stash-list"@,
        "stash/"@ + decimal(id) + "."@ + "index"@ != "stash-list"@,
        "stash/"@ + decimal(id) + "."@ + "work"@ != "index"@,
        "stash/"@ + decimal(id) + "."@ + "index"@ != "index"@,
        "stash-list"@ != "index"@,
{
    reveal_strlit("stash/");
    reveal_strlit("stash-list");
    reveal_strlit("index");
    reveal_strlit("work");
    let a = "stash/"@ + decimal(id) + "."@ + "work"@;
    let b = "stash/"@ + decimal(id) + "."@ + "index"@;
    assert(a.len() != b.len());
    assert(a[5] == '/' && b[5] == '/' && "stash-list"@[5] == '-');
    assert(a[0] == 's' && b[0] == 's' && "stash-list"@[0] == 's' && "index"@[0] == 'i');
}

/// A stash that was made is at the head of the list, with both trees as they were. The index is that
/// of HEAD.
#[verifier::spinoff_prover]
#[verifier::rlimit(60)]
pub proof fn lemma_stash_kept(
    m: Machine,
    s: Screen,
    root: Seq<char>,
    given: Option<Seq<char>>,
    base: Seq<char>,
    t: Trio,
    e: Saved,
)
    requires
        entry_saved(m, s, root, given, base, t).status == 0,
        e.id == highest(entries_of(m, root)) + 1,
        e.base == base,
        e.branch == (match branch_of(m, root) {
            Some(b) => b,
            None => "HEAD"@,
        }),
        e.message == stash_message(m, root, given, e.branch, base),
        storable_saved(e),
        forall|i: int|
            0 <= i < entries_of(m, root).len() ==> storable_saved(#[trigger] entries_of(m, root)[i]),
        storable(t.work),
        storable(t.index),
        storable(t.head),
        tree_bytes(t.head).len() <= m.memory_limit,
        ascending(m.files),
        apart(overlaid(overlaid(t.head, t.index), t.work)),
        apart(t.head),
    ensures
        ({
            let after = entry_saved(m, s, root, given, base, t).m;
            &&& entries_of(after, root) == seq![e] + entries_of(m, root)
            &&& saved_tree(after, root, e.id, "work"@) == Some(t.work)
            &&& saved_tree(after, root, e.id, "index"@) == Some(t.index)
            &&& index_of(after, root) == Some(t.head)
        }),
{
    let v = entries_of(m, root);
    let all = seq![e] + v;
    let id = e.id;
    let first = saved_tree_file(root, id, "work"@);
    let second = saved_tree_file(root, id, "index"@);
    let third = git_file(root, "stash-list"@);
    let fourth = git_file(root, "index"@);
    lemma_stash_names(id);
    let x = "stash/"@ + decimal(id) + "."@ + "work"@;
    let y = "stash/"@ + decimal(id) + "."@ + "index"@;
    lemma_git_files_differ(root, x, y);
    lemma_git_files_differ(root, x, "stash-list"@);
    lemma_git_files_differ(root, y, "stash-list"@);
    lemma_git_files_differ(root, x, "index"@);
    lemma_git_files_differ(root, y, "index"@);
    lemma_git_files_differ(root, "stash-list"@, "index"@);
    let half = written(m, first, tree_bytes(t.work)).0;
    let m1 = trees_saved(m, root, id, t.work, t.index).0;
    let (m2, ok) = entries_stored(m1, root, all);
    assert forall|i: int| 0 <= i < all.len() implies storable_saved(#[trigger] all[i]) by {
        if i > 0 {
            assert(all[i] == v[i - 1]);
        }
    }
    lemma_write(m, first, tree_bytes(t.work), first);
    lemma_write(half, second, tree_bytes(t.index), first);
    let bytes = encode_utf8(entries_text(all));
    lemma_write(m1, third, bytes, first);
    lemma_write(m1, third, bytes, second);
    lemma_stashes_read_back(m1, root, all);
    let o = overlaid(overlaid(t.head, t.index), t.work);
    let m3 = tree_written(m2, root, o, t.head, true).0;
    lemma_move_spares(m2, root, o, t.head, true, x);
    lemma_move_spares(m2, root, o, t.head, true, y);
    lemma_move_spares(m2, root, o, t.head, true, "stash-list"@);
    lemma_written(m3, fourth, tree_bytes(t.head), first);
    lemma_written(m3, fourth, tree_bytes(t.head), second);
    lemma_written(m3, fourth, tree_bytes(t.head), third);
    lemma_index_read_back(m3, root, t.head);
    lemma_tree_round_trip(t.work);
    lemma_tree_round_trip(t.index);
}

/// A stash that was put in place is there: the index is the one that it kept, and every entry of its
/// working tree stands in its place, with the content of its blob or, where nothing was to be
/// changed, as it stood.
#[verifier::spinoff_prover]
#[verifier::rlimit(60)]
pub proof fn lemma_stash_given_back(m: Machine, s: Screen, root: Seq<char>, work: Files, index: Files, i: int)
    requires
        stash_restored(m, s, root, work, index).status == 0,
        storable(index),
        tree_bytes(index).len() <= m.memory_limit,
        ascending(m.files),
        ascending(work),
        apart(work),
        0 <= i < work.len(),
    ensures
        ({
            let after = stash_restored(m, s, root, work, index).m;
            let at = below(root, work[i].0);
            &&& index_of(after, root) == Some(index)
            &&& if left_alone(m, root, head_files(m, root), work[i].0, work[i].1, false) {
                lookup(after.files, at) == lookup(m.files, at)
            } else {
                &&& blob_of(m, root, work[i].1.hash) is Some
                &&& lookup(after.files, at) == Some(
                    placed_thing(work[i].1, blob_of(m, root, work[i].1.hash)->0),
                )
            }
        }),
{
    let current = head_files(m, root);
    let (n, v) = stash_blocked(m, root, work);
    lemma_blocked_only_reads(m, root, work);
    let at = below(root, work[i].0);
    let n1 = reserved(n, move_memory(n)).1;
    let n2 = tree_written(n, root, current, work, false).0;
    let n3 = index_stored(n2, root, index).0;
    assert(tree_moved(n1, root, current, work, false).1 is Ok);
    lemma_entry_in_place(n1, root, current, work, false, i);
    assert(n2.files == tree_moved(n1, root, current, work, false).0.files);
    assert(blob_of(n1, root, work[i].1.hash) == blob_of(m, root, work[i].1.hash));
    assert(left_alone(n1, root, current, work[i].0, work[i].1, false) == left_alone(
        m,
        root,
        current,
        work[i].0,
        work[i].1,
        false,
    ));
    assert(lookup(n2.files, at) is Some);
    let inner = ".git/"@ + "index"@;
    assert(inner.subrange(0, ".git/"@.len() as int) =~= ".git/"@);
    lemma_places_differ(root, inner, work[i].0);
    lemma_written(n2, git_file(root, "index"@), tree_bytes(index), at);
    lemma_index_read_back(n2, root, index);
    lemma_status_only_reads(n3, s, seq![]);
}

proof fn lemma_blocked_only_reads(m: Machine, root: Seq<char>, work: Files)
    ensures
        stash_blocked(m, root, work).0.files == m.files,
        stash_blocked(m, root, work).0.memory_limit == m.memory_limit,
{
}

} // verus!
