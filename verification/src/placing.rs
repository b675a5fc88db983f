//! What moving a working tree leaves: every entry of the new tree in its place, and nothing of the
//! old tree that the new one does not hold.

use vstd::prelude::*;

use crate::bytes::loose_text;
use crate::common::Trio;
use crate::console::Screen;
use crate::moves::{carried, tree_checked_out};
use crate::objects::blob_id;
use crate::order::{
    ascending, before, lemma_before_irreflexive, lemma_bind_ascending, lemma_lookup_at, lemma_lookup_bind,
    lemma_lookup_unbind, lemma_unbind_ascending, lookup,
};
use crate::repo::{blob_of, git_file, index_of};
use crate::storage::{lemma_index_read_back, lemma_parents_kept, lemma_written};
use crate::system::{
    after_act, after_acts, below, file_at, lemma_parent_shorter, parent, reserved, with_files, with_parents, without_dir, Act,
    Disk, Machine, Thing,
};
use crate::text::starts;
use crate::trees::{executable_mode, storable, tree_bytes, work_bits, Files, Record};
use crate::worktree::{
    all_pruned, gone, left_alone, move_memory, placement, placements, pruned, record_at, removals, tree_moved,
    tree_written,
};

verus! {

/// The path that a change is about.
pub open spec fn act_path(a: Act) -> Seq<char> {
    match a {
        Act::PutFile { path, .. } => path,
        Act::PutSymlink { link, .. } => link,
        Act::RemoveFile(path) => path,
    }
}

/// What a change puts in place.
pub open spec fn act_thing(a: Act) -> Thing {
    match a {
        Act::PutFile { bytes, mode, .. } => Thing::File { bytes, mode, native: false },
        Act::PutSymlink { target, .. } => Thing::Symlink { target },
        Act::RemoveFile(_) => Thing::Directory,
    }
}

/// What stands for an entry in the working tree.
pub open spec fn placed_thing(r: Record, data: Seq<u8>) -> Thing {
    if r.symlink {
        Thing::Symlink { target: loose_text(data) }
    } else {
        Thing::File { bytes: data, mode: work_bits(r.executable), native: false }
    }
}

/// Whether no file and no link stands at a path.
pub open spec fn no_file(d: Disk, path: Seq<char>) -> bool {
    match lookup(d, path) {
        None => true,
        Some(Thing::Directory) => true,
        Some(_) => false,
    }
}

// ---------------------------------------------------------------------------
// One change
// ---------------------------------------------------------------------------

proof fn lemma_parents(d: Disk, path: Seq<char>, other: Seq<char>)
    requires
        with_parents(d, path) is Ok,
        ascending(d),
    ensures
        ascending(with_parents(d, path)->Ok_0),
        no_file(d, other) ==> no_file(with_parents(d, path)->Ok_0, other),
    decreases path.len(),
{
    if let Some(p) = parent(path) {
        lemma_parent_shorter(path);
        if lookup(d, p) is None {
            lemma_parents(d, p, other);
            let e = with_parents(d, p)->Ok_0;
            lemma_bind_ascending(e, p, Thing::Directory);
            lemma_lookup_bind(e, p, Thing::Directory, other);
        }
    }
}

/// What one change does: the disk stays in order, what it puts is there, what it removes is not, and
/// what stands elsewhere stays.
pub proof fn lemma_one_change(d: Disk, a: Act, limit: nat, other: Seq<char>)
    requires
        after_act(d, a, limit) is Ok,
        ascending(d),
    ensures
        ascending(after_act(d, a, limit)->Ok_0),
        other != act_path(a) && lookup(d, other) is Some ==> lookup(
            after_act(d, a, limit)->Ok_0,
            other,
        ) == lookup(d, other),
        other != act_path(a) && no_file(d, other) ==> no_file(after_act(d, a, limit)->Ok_0, other),
        a is RemoveFile ==> no_file(after_act(d, a, limit)->Ok_0, act_path(a)),
        !(a is RemoveFile) ==> lookup(after_act(d, a, limit)->Ok_0, act_path(a)) == Some(
            act_thing(a),
        ),
{
    let path = act_path(a);
    match a {
        Act::RemoveFile(_) => {
            lemma_unbind_ascending(d, path);
            lemma_lookup_unbind(d, path, other);
            lemma_lookup_unbind(d, path, path);
        },
        _ => {
            let e = with_parents(d, path)->Ok_0;
            lemma_parents(d, path, other);
            lemma_bind_ascending(e, path, act_thing(a));
            lemma_lookup_bind(e, path, act_thing(a), other);
            lemma_lookup_bind(e, path, act_thing(a), path);
            if lookup(d, other) is Some {
                lemma_parents_kept(d, path, other);
            }
        },
    }
}

// ---------------------------------------------------------------------------
// Many changes
// ---------------------------------------------------------------------------

/// Whether none of the changes from `k` on is about a path.
pub open spec fn untouched_from(v: Seq<Act>, k: int, path: Seq<char>) -> bool {
    forall|j: int| k <= j < v.len() ==> act_path(#[trigger] v[j]) != path
}

proof fn lemma_changes_ascend(d: Disk, v: Seq<Act>, limit: nat)
    requires
        after_acts(d, v, limit) is Ok,
        ascending(d),
    ensures
        ascending(after_acts(d, v, limit)->Ok_0),
    decreases v.len(),
{
    if v.len() > 0 {
        lemma_changes_ascend(d, v.drop_last(), limit);
        let e = after_acts(d, v.drop_last(), limit)->Ok_0;
        lemma_one_change(e, v.last(), limit, act_path(v.last()));
    }
}

/// Changes leave what stands at a path that none of them names.
pub proof fn lemma_untouched_stays(d: Disk, v: Seq<Act>, limit: nat, path: Seq<char>)
    requires
        after_acts(d, v, limit) is Ok,
        ascending(d),
        lookup(d, path) is Some,
        untouched_from(v, 0, path),
    ensures
        lookup(after_acts(d, v, limit)->Ok_0, path) == lookup(d, path),
    decreases v.len(),
{
    if v.len() > 0 {
        let less = v.drop_last();
        assert forall|j: int| 0 <= j < less.len() implies act_path(#[trigger] less[j]) != path by {
            assert(less[j] == v[j]);
        }
        lemma_untouched_stays(d, less, limit, path);
        lemma_changes_ascend(d, less, limit);
        let e = after_acts(d, less, limit)->Ok_0;
        assert(act_path(v[v.len() - 1]) != path);
        lemma_one_change(e, v.last(), limit, path);
    }
}

proof fn lemma_last_change_counts(d: Disk, v: Seq<Act>, limit: nat, k: int)
    requires
        after_acts(d, v, limit) is Ok,
        ascending(d),
        0 <= k < v.len(),
        untouched_from(v, k + 1, act_path(v[k])),
    ensures
        v[k] is RemoveFile ==> no_file(after_acts(d, v, limit)->Ok_0, act_path(v[k])),
        !(v[k] is RemoveFile) ==> lookup(after_acts(d, v, limit)->Ok_0, act_path(v[k])) == Some(
            act_thing(v[k]),
        ),
    decreases v.len(),
{
    let less = v.drop_last();
    let path = act_path(v[k]);
    lemma_changes_ascend(d, less, limit);
    let e = after_acts(d, less, limit)->Ok_0;
    if k < v.len() - 1 {
        assert(less[k] == v[k]);
        assert forall|j: int| k + 1 <= j < less.len() implies act_path(#[trigger] less[j]) != path by {
            assert(less[j] == v[j]);
        }
        lemma_last_change_counts(d, less, limit, k);
        assert(act_path(v[v.len() - 1]) != path);
    }
    lemma_one_change(e, v.last(), limit, path);
}

// ---------------------------------------------------------------------------
// The changes of a move
// ---------------------------------------------------------------------------

/// Different names stand at different places.
pub proof fn lemma_places_differ(root: Seq<char>, a: Seq<char>, b: Seq<char>)
    requires
        a != b,
    ensures
        below(root, a) != below(root, b),
{
    let front = if root == "/"@ {
        "/"@
    } else {
        root + "/"@
    };
    let p = below(root, a);
    let q = below(root, b);
    assert(p =~= front + a && q =~= front + b);
    if p == q {
        assert(p.subrange(front.len() as int, p.len() as int) =~= a);
        assert(q.subrange(front.len() as int, q.len() as int) =~= b);
    }
}

proof fn lemma_names_differ(t: Files, i: int, j: int)
    requires
        ascending(t),
        0 <= i < t.len(),
        0 <= j < t.len(),
        i != j,
    ensures
        t[i].0 != t[j].0,
{
    lemma_before_irreflexive(t[i].0);
    if i < j {
        assert(before(t[i].0, t[j].0));
    } else {
        assert(before(t[j].0, t[i].0));
    }
}

/// Whether the change at `k` puts the entry at `j` in its place.
spec fn puts(m: Machine, root: Seq<char>, t: Files, v: Seq<Act>, k: int, j: int) -> bool {
    &&& blob_of(m, root, t[j].1.hash) is Some
    &&& v[k] == placement(root, t[j].0, t[j].1, blob_of(m, root, t[j].1.hash)->0)
}

/// Whether some change, none after it about the same path, puts the entry at `j` in its place.
spec fn is_put(m: Machine, root: Seq<char>, t: Files, v: Seq<Act>, from: int, j: int) -> bool {
    exists|k: int|
        from <= k < v.len() && #[trigger] puts(m, root, t, v, k, j) && untouched_from(
            v,
            k + 1,
            below(root, t[j].0),
        )
}

/// Whether a change is about an entry from `i` on.
spec fn about_entry(root: Seq<char>, t: Files, a: Act, i: int) -> bool {
    exists|j: int| i <= j < t.len() && act_path(a) == below(root, (#[trigger] t[j]).0)
}

proof fn lemma_placements(
    m: Machine,
    root: Seq<char>,
    o: Files,
    t: Files,
    force: bool,
    i: int,
    head: Seq<Act>,
)
    requires
        0 <= i <= t.len(),
        ascending(t),
        placements(m, root, o, t, force, i, head) is Ok,
    ensures
        ({
            let v = placements(m, root, o, t, force, i, head)->Ok_0;
            &&& v.len() >= head.len()
            &&& v.subrange(0, head.len() as int) == head
            &&& forall|k: int| head.len() <= k < v.len() ==> #[trigger] about_entry(root, t, v[k], i)
            &&& forall|k: int|
                head.len() <= k < v.len() ==> !((#[trigger] v[k]) is RemoveFile)
            &&& forall|j: int, k: int|
                i <= j < t.len() && head.len() <= k < v.len() && left_alone(
                    m,
                    root,
                    o,
                    t[j].0,
                    t[j].1,
                    force,
                ) ==> act_path(#[trigger] v[k]) != below(root, (#[trigger] t[j]).0)
            &&& forall|j: int|
                i <= j < t.len() && !left_alone(m, root, o, t[j].0, t[j].1, force)
                    ==> #[trigger] is_put(m, root, t, v, head.len() as int, j)
        }),
    decreases t.len() - i,
{
    let v = placements(m, root, o, t, force, i, head)->Ok_0;
    if i < t.len() {
        let (path, r) = t[i];
        if left_alone(m, root, o, path, r, force) {
            lemma_placements(m, root, o, t, force, i + 1, head);
            assert forall|k: int| head.len() <= k < v.len() implies #[trigger] about_entry(
                root,
                t,
                v[k],
                i,
            ) by {
                assert(about_entry(root, t, v[k], i + 1));
            }
            assert forall|j: int, k: int|
                i <= j < t.len() && head.len() <= k < v.len() && left_alone(
                    m,
                    root,
                    o,
                    t[j].0,
                    t[j].1,
                    force,
                ) implies act_path(#[trigger] v[k]) != below(root, (#[trigger] t[j]).0) by {
                if j == i {
                    assert(about_entry(root, t, v[k], i + 1));
                    let e = choose|e: int|
                        i + 1 <= e < t.len() && act_path(v[k]) == below(root, (#[trigger] t[e]).0);
                    lemma_names_differ(t, e, i);
                    lemma_places_differ(root, t[e].0, t[i].0);
                }
            }
        } else {
            let data = blob_of(m, root, r.hash)->0;
            let more = head.push(placement(root, path, r, data));
            lemma_placements(m, root, o, t, force, i + 1, more);
            assert(v.subrange(0, head.len() as int) =~= more.subrange(0, head.len() as int));
            assert(more.subrange(0, head.len() as int) =~= head);
            assert(v[head.len() as int] == v.subrange(0, more.len() as int)[head.len() as int]);
            let h = head.len() as int;
            assert(act_path(v[h]) == below(root, t[i].0));
            assert forall|k: int| h <= k < v.len() implies #[trigger] about_entry(root, t, v[k], i)
                by {
                if k == h {
                    assert(act_path(v[k]) == below(root, t[i].0));
                } else {
                    assert(about_entry(root, t, v[k], i + 1));
                }
            }
            assert(untouched_from(v, h + 1, below(root, t[i].0))) by {
                assert forall|k: int| h + 1 <= k < v.len() implies act_path(#[trigger] v[k])
                    != below(root, t[i].0) by {
                    assert(about_entry(root, t, v[k], i + 1));
                    let e = choose|e: int|
                        i + 1 <= e < t.len() && act_path(v[k]) == below(root, (#[trigger] t[e]).0);
                    lemma_names_differ(t, e, i);
                    lemma_places_differ(root, t[e].0, t[i].0);
                }
            }
            assert(puts(m, root, t, v, h, i));
            assert(is_put(m, root, t, v, h, i));
            assert forall|j: int|
                i <= j < t.len() && !left_alone(
                    m,
                    root,
                    o,
                    t[j].0,
                    t[j].1,
                    force,
                ) implies #[trigger] is_put(m, root, t, v, h, j) by {
                if j > i {
                    assert(is_put(m, root, t, v, h + 1, j));
                    let k = choose|k: int|
                        h + 1 <= k < v.len() && #[trigger] puts(m, root, t, v, k, j)
                            && untouched_from(v, k + 1, below(root, t[j].0));
                    assert(puts(m, root, t, v, k, j));
                }
            }
            assert forall|j: int, k: int|
                i <= j < t.len() && h <= k < v.len() && left_alone(
                    m,
                    root,
                    o,
                    t[j].0,
                    t[j].1,
                    force,
                ) implies act_path(#[trigger] v[k]) != below(root, (#[trigger] t[j]).0) by {
                if k == h {
                    lemma_names_differ(t, j, i);
                    lemma_places_differ(root, t[j].0, t[i].0);
                }
            }
        }
    } else {
        assert(v.subrange(0, head.len() as int) =~= head);
    }
}

/// Whether a path is one of those that are gone.
spec fn among(v: Seq<Seq<char>>, path: Seq<char>) -> bool {
    exists|i: int| 0 <= i < v.len() && #[trigger] v[i] == path
}

proof fn lemma_gone(o: Files, t: Files)
    ensures
        forall|i: int|
            0 <= i < gone(o, t).len() ==> lookup(t, #[trigger] gone(o, t)[i]) is None,
        forall|i: int|
            0 <= i < o.len() && lookup(t, (#[trigger] o[i]).0) is None ==> among(gone(o, t), o[i].0),
    decreases o.len(),
{
    if o.len() > 0 {
        let less = o.drop_last();
        lemma_gone(less, t);
        let v = gone(o, t);
        let w = gone(less, t);
        assert forall|i: int| 0 <= i < o.len() && lookup(t, (#[trigger] o[i]).0) is None implies among(
            v,
            o[i].0,
        ) by {
            if i < o.len() - 1 {
                assert(less[i] == o[i]);
                assert(among(w, o[i].0));
                let k = choose|k: int| 0 <= k < w.len() && #[trigger] w[k] == o[i].0;
                assert(v[k] == o[i].0);
            } else {
                assert(v[v.len() - 1] == o[i].0);
            }
        }
        assert forall|i: int| 0 <= i < v.len() implies lookup(t, #[trigger] v[i]) is None by {
            if i < w.len() {
                assert(v[i] == w[i]);
            }
        }
    }
}

proof fn lemma_removals(m: Machine, root: Seq<char>, paths: Seq<Seq<char>>)
    ensures
        forall|k: int|
            0 <= k < removals(m, root, paths).len() ==> (#[trigger] removals(m, root, paths)[k]) is RemoveFile
                && exists|i: int|
                0 <= i < paths.len() && removals(m, root, paths)[k] == Act::RemoveFile(
                    below(root, #[trigger] paths[i]),
                ),
        forall|i: int|
            0 <= i < paths.len() && file_at(m.files, below(root, #[trigger] paths[i])) ==> exists|k: int|
                0 <= k < removals(m, root, paths).len() && #[trigger] removals(m, root, paths)[k]
                    == Act::RemoveFile(below(root, paths[i])),
    decreases paths.len(),
{
    if paths.len() > 0 {
        let less = paths.drop_last();
        lemma_removals(m, root, less);
        let v = removals(m, root, paths);
        let w = removals(m, root, less);
        assert forall|k: int| 0 <= k < v.len() implies (#[trigger] v[k]) is RemoveFile && exists|i: int|
            0 <= i < paths.len() && v[k] == Act::RemoveFile(below(root, #[trigger] paths[i])) by {
            if k < w.len() {
                assert(v[k] == w[k]);
                let i = choose|i: int|
                    0 <= i < less.len() && w[k] == Act::RemoveFile(below(root, #[trigger] less[i]));
                assert(paths[i] == less[i]);
            } else {
                assert(paths[paths.len() - 1] == paths.last());
            }
        }
        assert forall|i: int|
            0 <= i < paths.len() && file_at(m.files, below(root, #[trigger] paths[i])) implies exists|k: int|
            0 <= k < v.len() && #[trigger] v[k] == Act::RemoveFile(below(root, paths[i])) by {
            if i < less.len() {
                assert(less[i] == paths[i]);
                let k = choose|k: int|
                    0 <= k < w.len() && #[trigger] w[k] == Act::RemoveFile(below(root, less[i]));
                assert(v[k] == w[k]);
            } else {
                assert(v[v.len() - 1] == Act::RemoveFile(below(root, paths[i])));
            }
        }
    }
}

// ---------------------------------------------------------------------------
// Pruning
// ---------------------------------------------------------------------------

pub(crate) proof fn lemma_pruned(m: Machine, root: Seq<char>, path: Seq<char>, other: Seq<char>)
    requires
        ascending(m.files),
    ensures
        ascending(pruned(m, root, path).files),
        !no_file(m.files, other) ==> lookup(pruned(m, root, path).files, other) == lookup(
            m.files,
            other,
        ),
        no_file(m.files, other) ==> no_file(pruned(m, root, path).files, other),
        pruned(m, root, path).memory_limit == m.memory_limit,
    decreases path.len(),
{
    if let Some(d) = parent(path) {
        lemma_parent_shorter(path);
        if let Ok(f) = without_dir(m.files, d) {
            lemma_unbind_ascending(m.files, d);
            lemma_lookup_unbind(m.files, d, other);
            lemma_pruned(with_files(m, f), root, d, other);
        }
    }
}

proof fn lemma_all_pruned(m: Machine, root: Seq<char>, paths: Seq<Seq<char>>, other: Seq<char>)
    requires
        ascending(m.files),
    ensures
        ascending(all_pruned(m, root, paths).files),
        !no_file(m.files, other) ==> lookup(all_pruned(m, root, paths).files, other) == lookup(
            m.files,
            other,
        ),
        no_file(m.files, other) ==> no_file(all_pruned(m, root, paths).files, other),
        all_pruned(m, root, paths).memory_limit == m.memory_limit,
    decreases paths.len(),
{
    if paths.len() > 0 {
        lemma_all_pruned(m, root, paths.drop_last(), other);
        lemma_pruned(
            all_pruned(m, root, paths.drop_last()),
            root,
            below(root, paths.last()),
            other,
        );
    }
}

// ---------------------------------------------------------------------------
// The laws
// ---------------------------------------------------------------------------

proof fn lemma_file_there(d: Disk, path: Seq<char>)
    requires
        file_at(d, path),
    ensures
        lookup(d, path) is Some,
        !no_file(d, path),
{
}

/// Once a working tree was moved, every entry of the new tree stands in its place: one that the
/// move leaves alone as it stood before, any other with the content of its blob.
pub proof fn lemma_entry_in_place(
    m: Machine,
    root: Seq<char>,
    o: Files,
    t: Files,
    force: bool,
    i: int,
)
    requires
        tree_moved(m, root, o, t, force).1 is Ok,
        ascending(m.files),
        ascending(t),
        0 <= i < t.len(),
    ensures
        ({
            let at = below(root, t[i].0);
            let after = tree_moved(m, root, o, t, force).0;
            if left_alone(m, root, o, t[i].0, t[i].1, force) {
                lookup(after.files, at) == lookup(m.files, at)
            } else {
                &&& blob_of(m, root, t[i].1.hash) is Some
                &&& lookup(after.files, at) == Some(
                    placed_thing(t[i].1, blob_of(m, root, t[i].1.hash)->0),
                )
            }
        }),
        tree_moved(m, root, o, t, force).0.memory_limit == m.memory_limit,
{
    let going = gone(o, t);
    let head = removals(m, root, going);
    let v = placements(m, root, o, t, force, 0, head)->Ok_0;
    let limit = m.disk_limit as nat;
    let d = after_acts(m.files, v, limit)->Ok_0;
    let at = below(root, t[i].0);
    lemma_placements(m, root, o, t, force, 0, head);
    lemma_gone(o, t);
    lemma_removals(m, root, going);
    lemma_changes_ascend(m.files, v, limit);
    lemma_all_pruned(with_files(m, d), root, going, at);
    if left_alone(m, root, o, t[i].0, t[i].1, force) {
        lemma_file_there(m.files, at);
        assert(untouched_from(v, 0, at)) by {
            assert forall|k: int| 0 <= k < v.len() implies act_path(#[trigger] v[k]) != at by {
                if k < head.len() {
                    assert(v.subrange(0, head.len() as int)[k] == v[k]);
                    assert(head[k] is RemoveFile);
                    let e = choose|e: int|
                        0 <= e < going.len() && head[k] == Act::RemoveFile(
                            below(root, #[trigger] going[e]),
                        );
                    assert(lookup(t, going[e]) is None);
                    lemma_lookup_at(t, i);
                    lemma_places_differ(root, going[e], t[i].0);
                }
            }
        }
        lemma_untouched_stays(m.files, v, limit, at);
    } else {
        assert(is_put(m, root, t, v, head.len() as int, i));
        let k = choose|k: int|
            head.len() <= k < v.len() && #[trigger] puts(m, root, t, v, k, i) && untouched_from(
                v,
                k + 1,
                below(root, t[i].0),
            );
        lemma_last_change_counts(m.files, v, limit, k);
    }
}

/// Once a working tree was moved, nothing is left of a file that the old tree holds and the new one
/// does not; at most a directory stands in its place.
pub proof fn lemma_nothing_left(
    m: Machine,
    root: Seq<char>,
    o: Files,
    t: Files,
    force: bool,
    i: int,
)
    requires
        tree_moved(m, root, o, t, force).1 is Ok,
        ascending(m.files),
        ascending(t),
        0 <= i < o.len(),
        lookup(t, o[i].0) is None,
        file_at(m.files, below(root, o[i].0)),
    ensures
        no_file(tree_moved(m, root, o, t, force).0.files, below(root, o[i].0)),
{
    let going = gone(o, t);
    let head = removals(m, root, going);
    let v = placements(m, root, o, t, force, 0, head)->Ok_0;
    let limit = m.disk_limit as nat;
    let d = after_acts(m.files, v, limit)->Ok_0;
    let at = below(root, o[i].0);
    lemma_placements(m, root, o, t, force, 0, head);
    lemma_gone(o, t);
    lemma_removals(m, root, going);
    lemma_changes_ascend(m.files, v, limit);
    lemma_all_pruned(with_files(m, d), root, going, at);
    assert(among(going, o[i].0));
    let e = choose|e: int| 0 <= e < going.len() && #[trigger] going[e] == o[i].0;
    let k = choose|k: int|
        0 <= k < head.len() && #[trigger] head[k] == Act::RemoveFile(below(root, going[e]));
    assert(v.subrange(0, head.len() as int)[k] == v[k]);
    assert(v[k] == Act::RemoveFile(at));
    assert forall|j: int| 0 <= j < head.len() implies (#[trigger] v[j]) is RemoveFile by {
        assert(v.subrange(0, head.len() as int)[j] == v[j]);
        assert(head[j] is RemoveFile);
    }
    lemma_removed_for_good(m, root, t, v, head.len() as int, k, o[i].0);
}

proof fn lemma_removed_for_good(
    m: Machine,
    root: Seq<char>,
    t: Files,
    v: Seq<Act>,
    h: int,
    k: int,
    name: Seq<char>,
)
    requires
        0 <= k < h <= v.len(),
        after_acts(m.files, v, m.disk_limit as nat) is Ok,
        ascending(m.files),
        ascending(t),
        lookup(t, name) is None,
        v[k] == Act::RemoveFile(below(root, name)),
        forall|j: int| 0 <= j < h ==> (#[trigger] v[j]) is RemoveFile,
        forall|j: int| h <= j < v.len() ==> #[trigger] about_entry(root, t, v[j], 0),
    ensures
        no_file(after_acts(m.files, v, m.disk_limit as nat)->Ok_0, below(root, name)),
    decreases v.len(),
{
    let at = below(root, name);
    let limit = m.disk_limit as nat;
    let less = v.drop_last();
    let e = after_acts(m.files, less, limit)->Ok_0;
    lemma_changes_ascend(m.files, less, limit);
    lemma_one_change(e, v.last(), limit, at);
    if v.len() > h {
        assert(about_entry(root, t, v[v.len() - 1], 0));
        let j = choose|j: int|
            0 <= j < t.len() && act_path(v[v.len() - 1]) == below(root, (#[trigger] t[j]).0);
        lemma_lookup_at(t, j);
        lemma_places_differ(root, t[j].0, name);
        assert forall|j: int| 0 <= j < h implies (#[trigger] less[j]) is RemoveFile by {
            assert(less[j] == v[j]);
        }
        assert forall|j: int| h <= j < less.len() implies #[trigger] about_entry(root, t, less[j], 0)
            by {
            assert(less[j] == v[j]);
            assert(about_entry(root, t, v[j], 0));
        }
        assert(less[k] == v[k]);
        lemma_removed_for_good(m, root, t, less, h, k, name);
    } else if k < v.len() - 1 {
        assert forall|j: int| 0 <= j < h - 1 implies (#[trigger] less[j]) is RemoveFile by {
            assert(less[j] == v[j]);
        }
        assert(less[k] == v[k]);
        lemma_removed_for_good(m, root, t, less, h - 1, k, name);
        assert(v[v.len() - 1] is RemoveFile);
    }
}

/// What a move puts in place is what the working tree is then found to hold, if the blob is what its
/// name says, and for a link is text.
pub proof fn lemma_entry_read_back(
    m: Machine,
    root: Seq<char>,
    o: Files,
    t: Files,
    force: bool,
    i: int,
)
    requires
        tree_moved(m, root, o, t, force).1 is Ok,
        ascending(m.files),
        ascending(t),
        0 <= i < t.len(),
        !left_alone(m, root, o, t[i].0, t[i].1, force),
        blob_id(blob_of(m, root, t[i].1.hash)->0) == t[i].1.hash,
        t[i].1.symlink ==> !t[i].1.executable && vstd::utf8::valid_utf8(
            blob_of(m, root, t[i].1.hash)->0,
        ),
    ensures
        record_at(tree_moved(m, root, o, t, force).0, below(root, t[i].0)) == Some(t[i].1),
{
    lemma_entry_in_place(m, root, o, t, force, i);
    let data = blob_of(m, root, t[i].1.hash)->0;
    assert(executable_mode(0o755) && !executable_mode(0o644)) by (bit_vector);
    if t[i].1.symlink {
        vstd::utf8::decode_utf8_encode_utf8(data);
    }
}

proof fn lemma_gone_is_old(o: Files, t: Files, i: int)
    requires
        0 <= i < gone(o, t).len(),
    ensures
        exists|j: int| 0 <= j < o.len() && (#[trigger] o[j]).0 == gone(o, t)[i],
    decreases o.len(),
{
    let less = o.drop_last();
    let w = gone(less, t);
    if i < w.len() {
        lemma_gone_is_old(less, t, i);
        let j = choose|j: int| 0 <= j < less.len() && (#[trigger] less[j]).0 == w[i];
        assert(o[j] == less[j]);
        assert(gone(o, t)[i] == w[i]);
    } else {
        assert(o[o.len() - 1].0 == gone(o, t)[i]);
    }
}

/// A move touches nothing but what the two trees hold: any other file or link stays as it was.
pub proof fn lemma_rest_untouched(
    m: Machine,
    root: Seq<char>,
    o: Files,
    t: Files,
    force: bool,
    at: Seq<char>,
)
    requires
        tree_moved(m, root, o, t, force).1 is Ok,
        ascending(m.files),
        ascending(t),
        !no_file(m.files, at),
        forall|i: int| 0 <= i < o.len() ==> at != below(root, (#[trigger] o[i]).0),
        forall|i: int| 0 <= i < t.len() ==> at != below(root, (#[trigger] t[i]).0),
    ensures
        lookup(tree_moved(m, root, o, t, force).0.files, at) == lookup(m.files, at),
        tree_moved(m, root, o, t, force).0.memory_limit == m.memory_limit,
{
    let going = gone(o, t);
    let head = removals(m, root, going);
    let v = placements(m, root, o, t, force, 0, head)->Ok_0;
    let limit = m.disk_limit as nat;
    let d = after_acts(m.files, v, limit)->Ok_0;
    lemma_placements(m, root, o, t, force, 0, head);
    lemma_removals(m, root, going);
    lemma_changes_ascend(m.files, v, limit);
    lemma_all_pruned(with_files(m, d), root, going, at);
    assert(untouched_from(v, 0, at)) by {
        assert forall|k: int| 0 <= k < v.len() implies act_path(#[trigger] v[k]) != at by {
            if k < head.len() {
                assert(v.subrange(0, head.len() as int)[k] == v[k]);
                assert(head[k] is RemoveFile);
                let e = choose|e: int|
                    0 <= e < going.len() && head[k] == Act::RemoveFile(
                        below(root, #[trigger] going[e]),
                    );
                lemma_gone_is_old(o, t, e);
            } else {
                assert(about_entry(root, t, v[k], 0));
            }
        }
    }
    lemma_untouched_stays(m.files, v, limit, at);
}

/// Whether no path of a tree lies in the directory of the repository.
pub open spec fn apart(t: Files) -> bool {
    forall|i: int| 0 <= i < t.len() ==> !starts((#[trigger] t[i]).0, ".git/"@)
}

/// A checkout that succeeds leaves the index that the move carries over, and every entry of the new
/// tree in its place: with the content of its blob or, where nothing was to be changed, as it stood.
#[verifier::spinoff_prover]
#[verifier::rlimit(60)]
pub proof fn lemma_checked_out(m: Machine, s: Screen, root: Seq<char>, t: Trio, new: Files, i: int)
    requires
        tree_checked_out(m, s, root, t, new).status == 0,
        storable(carried(t, new)),
        tree_bytes(carried(t, new)).len() <= m.memory_limit,
        ascending(m.files),
        ascending(new),
        apart(new),
        0 <= i < new.len(),
    ensures
        ({
            let after = tree_checked_out(m, s, root, t, new).m;
            let at = below(root, new[i].0);
            &&& index_of(after, root) == Some(carried(t, new))
            &&& if left_alone(m, root, t.head, new[i].0, new[i].1, false) {
                lookup(after.files, at) == lookup(m.files, at)
            } else {
                &&& blob_of(m, root, new[i].1.hash) is Some
                &&& lookup(after.files, at) == Some(
                    placed_thing(new[i].1, blob_of(m, root, new[i].1.hash)->0),
                )
            }
        }),
{
    let at = below(root, new[i].0);
    let n1 = reserved(m, move_memory(m)).1;
    let n2 = tree_written(m, root, t.head, new, false).0;
    assert(tree_moved(n1, root, t.head, new, false).1 is Ok);
    lemma_entry_in_place(n1, root, t.head, new, false, i);
    assert(n2.files == tree_moved(n1, root, t.head, new, false).0.files);
    assert(blob_of(n1, root, new[i].1.hash) == blob_of(m, root, new[i].1.hash));
    assert(left_alone(n1, root, t.head, new[i].0, new[i].1, false) == left_alone(
        m,
        root,
        t.head,
        new[i].0,
        new[i].1,
        false,
    ));
    assert(lookup(n2.files, at) is Some);
    let inner = ".git/"@ + "index"@;
    assert(inner.subrange(0, ".git/"@.len() as int) =~= ".git/"@);
    lemma_places_differ(root, inner, new[i].0);
    lemma_written(n2, git_file(root, "index"@), tree_bytes(carried(t, new)), at);
    lemma_index_read_back(n2, root, carried(t, new));
}

} // verus!
