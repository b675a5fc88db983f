//! What a status says: of every path that differs between HEAD, the index and the working tree how it
//! differs, and nothing of any other.

use vstd::prelude::*;

use crate::common::{covered, Trio};
use crate::history::Names;
use crate::ignore::{ignores, Rule};
use crate::names::{either, kept, lemma_kept_holds, lemma_kept_passes, lemma_with_keys, with_keys};
use crate::order::{
    ascending, before, keys_of, lemma_before_irreflexive, lemma_lookup_at, lemma_lookup_place, lookup,
};
use crate::stages::{conflicts_of, Conflicts};
use crate::status::{
    classified, cwd_prefix, holds_content, is_loose, item_at, item_seen, items_among, items_reported, left_over,
    letter_or, line_placed, lines_only, loose_listed, loose_test, paired, rename_target, reported, short_tracked,
    short_unmerged, shown, summary_of, Change, Item, Sortable, StatusAsk, Untracked,
};
use crate::system::Machine;
use crate::trees::{Files, Record};

verus! {

// ---------------------------------------------------------------------------
// The paths that differ
// ---------------------------------------------------------------------------

/// Whether a path differs between the trees.
pub open spec fn differs(t: Trio, path: Seq<char>) -> bool {
    ||| lookup(t.head, path) != lookup(t.index, path)
    ||| lookup(t.index, path) is Some && lookup(t.work, path) != lookup(t.index, path)
}

/// The names of a list without repetition.
spec fn once(v: Seq<Item>) -> bool {
    forall|i: int, j: int| 0 <= i < j < v.len() ==> before((#[trigger] v[i]).path, (#[trigger] v[j]).path)
}

proof fn lemma_items_among(t: Trio, names: Names)
    requires
        ascending(names),
    ensures
        once(items_among(t, names)),
        forall|i: int|
            0 <= i < items_among(t, names).len() ==> (#[trigger] items_among(t, names)[i]) == item_at(
                t,
                items_among(t, names)[i].path,
            ) && differs(t, items_among(t, names)[i].path) && exists|k: int|
                0 <= k < names.len() && (#[trigger] names[k]).0 == items_among(t, names)[i].path,
        forall|k: int|
            0 <= k < names.len() && differs(t, (#[trigger] names[k]).0) ==> exists|i: int|
                0 <= i < items_among(t, names).len() && (#[trigger] items_among(t, names)[i]).path == names[k].0,
    decreases names.len(),
{
    if names.len() > 0 {
        let less = names.drop_last();
        assert forall|a: int, b: int| 0 <= a < b < less.len() implies before(
            #[trigger] less[a].0,
            #[trigger] less[b].0,
        ) by {
            assert(less[a] == names[a] && less[b] == names[b]);
        }
        lemma_items_among(t, less);
        let w = items_among(t, less);
        let v = items_among(t, names);
        let p = names.last().0;
        let x = item_at(t, p);
        assert(differs(t, p) == !(x.staged is None && x.unstaged is None));
        assert(names[names.len() - 1].0 == p);
        assert forall|i: int| 0 <= i < v.len() implies (#[trigger] v[i]) == item_at(t, v[i].path) && differs(
            t,
            v[i].path,
        ) && exists|k: int| 0 <= k < names.len() && (#[trigger] names[k]).0 == v[i].path by {
            if i < w.len() {
                assert(v[i] == w[i]);
                let k = choose|k: int| 0 <= k < less.len() && (#[trigger] less[k]).0 == w[i].path;
                assert(names[k].0 == v[i].path);
            }
        }
        assert forall|i: int, j: int| 0 <= i < j < v.len() implies before(
            (#[trigger] v[i]).path,
            (#[trigger] v[j]).path,
        ) by {
            assert(v[i] == w[i]);
            if j < w.len() {
                assert(v[j] == w[j]);
            } else {
                let k = choose|k: int| 0 <= k < less.len() && (#[trigger] less[k]).0 == w[i].path;
                assert(names[k].0 == w[i].path);
                assert(before(names[k].0, names[names.len() - 1].0));
            }
        }
        assert forall|k: int| 0 <= k < names.len() && differs(t, (#[trigger] names[k]).0) implies exists|i: int|
            0 <= i < v.len() && (#[trigger] v[i]).path == names[k].0 by {
            if k < less.len() {
                assert(less[k] == names[k]);
                let i = choose|i: int| 0 <= i < w.len() && (#[trigger] w[i]).path == less[k].0;
                assert(v[i] == w[i]);
            } else {
                assert(v.last().path == p);
                assert(v[v.len() - 1].path == names[k].0);
            }
        }
    }
}

/// Every path that any of the trees holds is among the names that are compared.
proof fn lemma_all_named(t: Trio, path: Seq<char>)
    ensures
        ascending(with_keys(either(t.head, t.index), t.work)),
        lookup(t.head, path) is Some || lookup(t.index, path) is Some || lookup(t.work, path) is Some
            ==> exists|k: int|
            0 <= k < with_keys(either(t.head, t.index), t.work).len() && (#[trigger] with_keys(
                either(t.head, t.index),
                t.work,
            )[k]).0 == path,
{
    let none: Names = seq![];
    let names = with_keys(either(t.head, t.index), t.work);
    lemma_with_keys(none, t.head, path);
    lemma_with_keys(with_keys(none, t.head), t.index, path);
    lemma_with_keys(either(t.head, t.index), t.work, path);
    if lookup(t.head, path) is Some {
        let i = lemma_lookup_place(t.head, path);
        assert(t.head[i].0 == path);
    }
    if lookup(t.index, path) is Some {
        let i = lemma_lookup_place(t.index, path);
        assert(t.index[i].0 == path);
    }
    if lookup(t.work, path) is Some {
        let i = lemma_lookup_place(t.work, path);
        assert(t.work[i].0 == path);
    }
    if lookup(names, path) is Some {
        let k = lemma_lookup_place(names, path);
        assert(names[k].0 == path);
    }
}

// ---------------------------------------------------------------------------
// Renames
// ---------------------------------------------------------------------------

/// Whether one item was renamed from where another was deleted.
spec fn moved(v: Seq<Item>, w: Seq<Item>, head: Files, index: Files, j: int, i: int) -> bool {
    &&& 0 <= i < v.len()
    &&& 0 <= j < v.len()
    &&& v[j].staged == Some(Change::Deleted)
    &&& v[i].staged == Some(Change::Added)
    &&& w[i] == Item { staged: Some(Change::Renamed), origin: Some(v[j].path), ..v[i] }
    &&& lookup(head, v[j].path) is Some
    &&& holds_content(lookup(index, v[i].path), lookup(head, v[j].path)->0.hash)
}

/// Whether an addition is left that holds what was deleted.
spec fn unpaired(w: Seq<Item>, head: Files, index: Files, path: Seq<char>, i: int) -> bool {
    &&& 0 <= i < w.len()
    &&& w[i].staged == Some(Change::Added)
    &&& lookup(head, path) is Some
    &&& holds_content(lookup(index, w[i].path), lookup(head, path)->0.hash)
}

proof fn lemma_target(v: Seq<Item>, index: Files, r: Record, i: int)
    requires
        0 <= i,
    ensures
        match rename_target(v, index, r, i) {
            Some(t) => i <= t < v.len() && v[t].staged == Some(Change::Added) && v[t].origin is None
                && holds_content(lookup(index, v[t].path), r.hash),
            None => forall|k: int|
                i <= k < v.len() ==> !((#[trigger] v[k]).staged == Some(Change::Added) && v[k].origin is None
                    && holds_content(lookup(index, v[k].path), r.hash)),
        },
    decreases v.len() - i,
{
    if i < v.len() {
        lemma_target(v, index, r, i + 1);
    }
}

/// What pairing comes to.
spec fn well_paired(v: Seq<Item>, head: Files, index: Files, k: int) -> bool {
    let (w, gone) = paired(v, head, index, k);
    &&& w.len() == v.len()
    &&& gone.len() == v.len()
    &&& forall|i: int|
        0 <= i < v.len() ==> (#[trigger] w[i]) == v[i] || exists|j: int|
            #[trigger] moved(v, w, head, index, j, i) && gone[j]
    &&& forall|j: int| 0 <= j < v.len() && #[trigger] gone[j] ==> j < k && exists|i: int| #[trigger]
        moved(v, w, head, index, j, i)
    &&& forall|j: int, i: int|
        0 <= j < k && !(#[trigger] gone[j]) && v[j].staged == Some(Change::Deleted) ==> !#[trigger] unpaired(
            w,
            head,
            index,
            v[j].path,
            i,
        )
}

#[verifier::spinoff_prover]
#[verifier::rlimit(40)]
proof fn lemma_well_paired(v: Seq<Item>, head: Files, index: Files, k: int)
    requires
        0 <= k <= v.len(),
        forall|i: int| 0 <= i < v.len() ==> (#[trigger] v[i]).origin is None,
        forall|i: int|
            0 <= i < v.len() && (#[trigger] v[i]).staged == Some(Change::Deleted) ==> lookup(
                head,
                v[i].path,
            ) is Some,
        forall|i: int| 0 <= i < v.len() ==> (#[trigger] v[i]).staged != Some(Change::Renamed),
    ensures
        well_paired(v, head, index, k),
    decreases k,
{
    if k > 0 {
        lemma_well_paired(v, head, index, k - 1);
        let (w, gone) = paired(v, head, index, k - 1);
        let (w2, gone2) = paired(v, head, index, k);
        let x = v[k - 1];
        assert(!gone[k - 1]);
        if x.staged == Some(Change::Deleted) {
            let r = lookup(head, x.path)->0;
            lemma_target(w, index, r, 0);
            match rename_target(w, index, r, 0) {
                Some(t) => {
                    assert(w[t] == v[t]);
                    assert(moved(v, w2, head, index, k - 1, t));
                    assert(gone2[k - 1]);
                    assert forall|i: int| 0 <= i < v.len() implies (#[trigger] w2[i]) == v[i] || exists|j: int|
                        #[trigger] moved(v, w2, head, index, j, i) && gone2[j] by {
                        if i != t && w[i] != v[i] {
                            let j = choose|j: int| #[trigger] moved(v, w, head, index, j, i) && gone[j];
                            assert(moved(v, w2, head, index, j, i) && gone2[j]);
                        }
                    }
                    assert forall|j: int| 0 <= j < v.len() && #[trigger] gone2[j] implies j < k && exists|i: int|
                        #[trigger] moved(v, w2, head, index, j, i) by {
                        if j != k - 1 {
                            assert(gone[j]);
                            let i = choose|i: int| #[trigger] moved(v, w, head, index, j, i);
                            assert(i != t);
                            assert(moved(v, w2, head, index, j, i));
                        }
                    }
                    assert forall|j: int, i: int|
                        0 <= j < k && !(#[trigger] gone2[j]) && v[j].staged == Some(Change::Deleted) implies
                        !#[trigger] unpaired(w2, head, index, v[j].path, i) by {
                        assert(!gone[j]);
                        if unpaired(w2, head, index, v[j].path, i) {
                            assert(i != t);
                            assert(unpaired(w, head, index, v[j].path, i));
                        }
                    }
                },
                None => {
                    assert forall|j: int, i: int|
                        0 <= j < k && !(#[trigger] gone2[j]) && v[j].staged == Some(Change::Deleted) implies
                        !#[trigger] unpaired(w2, head, index, v[j].path, i) by {
                        if unpaired(w2, head, index, v[j].path, i) {
                            if j == k - 1 {
                                assert(w[i] == v[i]);
                                assert(w[i].origin is None);
                            } else {
                                assert(!gone[j]);
                                assert(unpaired(w, head, index, v[j].path, i));
                            }
                        }
                    }
                },
            }
        } else {
            assert(w2 == w && gone2 == gone);
        }
    }
}

proof fn lemma_left_over(w: Seq<Item>, gone: Seq<bool>)
    requires
        gone.len() >= w.len(),
    ensures
        forall|i: int|
            0 <= i < left_over(w, gone).len() ==> exists|j: int|
                0 <= j < w.len() && !gone[j] && #[trigger] w[j] == #[trigger] left_over(w, gone)[i],
        forall|j: int|
            0 <= j < w.len() && !gone[j] ==> left_over(w, gone).contains(#[trigger] w[j]),
        once(w) ==> once(left_over(w, gone)),
    decreases w.len(),
{
    if w.len() > 0 {
        let less = w.drop_last();
        lemma_left_over(less, gone);
        let a = left_over(less, gone);
        let b = left_over(w, gone);
        assert forall|i: int| 0 <= i < b.len() implies exists|j: int|
            0 <= j < w.len() && !gone[j] && #[trigger] w[j] == #[trigger] b[i] by {
            if i < a.len() {
                assert(b[i] == a[i]);
                let j = choose|j: int| 0 <= j < less.len() && !gone[j] && #[trigger] less[j] == a[i];
                assert(w[j] == b[i]);
            } else {
                assert(w[w.len() - 1] == b[i]);
            }
        }
        assert forall|j: int| 0 <= j < w.len() && !gone[j] implies b.contains(#[trigger] w[j]) by {
            if j < less.len() {
                assert(less[j] == w[j]);
                assert(a.contains(less[j]));
                let i = choose|i: int| 0 <= i < a.len() && a[i] == less[j];
                assert(b[i] == w[j]);
            } else {
                assert(b.last() == w[j]);
            }
        }
        if once(w) {
            assert forall|i: int, j: int| 0 <= i < j < less.len() implies before(
                (#[trigger] less[i]).path,
                (#[trigger] less[j]).path,
            ) by {
                assert(less[i] == w[i] && less[j] == w[j]);
            }
            assert forall|i: int, j: int| 0 <= i < j < b.len() implies before(
                (#[trigger] b[i]).path,
                (#[trigger] b[j]).path,
            ) by {
                assert(b[i] == a[i]);
                if j < a.len() {
                    assert(b[j] == a[j]);
                } else {
                    let k = choose|k: int| 0 <= k < less.len() && !gone[k] && #[trigger] less[k] == a[i];
                    assert(w[k] == a[i]);
                    assert(before(w[k].path, w[w.len() - 1].path));
                }
            }
        }
    }
}

// ---------------------------------------------------------------------------
// What is said of a path
// ---------------------------------------------------------------------------

/// Whether an item says of its path what the trees hold there: of the working tree against the index,
/// and of the index against HEAD. A rename names a path that HEAD holds and the index does not, with
/// the same content.
pub open spec fn tells(t: Trio, x: Item) -> bool {
    let head = lookup(t.head, x.path);
    let index = lookup(t.index, x.path);
    let work = lookup(t.work, x.path);
    &&& x.unstaged is Some <==> index is Some && work != index
    &&& x.unstaged == Some(Change::Deleted) <==> index is Some && work is None
    &&& x.unstaged == Some(Change::Modified) <==> index is Some && work is Some && work != index
    &&& x.staged is None <==> head == index
    &&& x.staged == Some(Change::Deleted) <==> head is Some && index is None
    &&& x.staged == Some(Change::Modified) <==> head is Some && index is Some && head != index
    &&& x.staged == Some(Change::Added) || x.staged == Some(Change::Renamed) <==> head is None && index is Some
    &&& x.staged == Some(Change::Renamed) <==> x.origin is Some
    &&& x.origin matches Some(o) ==> lookup(t.head, o) is Some && lookup(t.index, o) is None && index->0.hash
        == lookup(t.head, o)->0.hash
}

/// Whether a list of items says something of a path, as itself or as what was renamed.
pub open spec fn speaks_of(v: Seq<Item>, path: Seq<char>) -> bool {
    exists|i: int| 0 <= i < v.len() && ((#[trigger] v[i]).path == path || v[i].origin == Some(path))
}

/// The items before those that were used up are left out, and which were.
spec fn all_paired(t: Trio) -> (Seq<Item>, Seq<bool>) {
    let v = differing(t);
    paired(v, t.head, t.index, v.len() as int)
}

/// The items of the paths that differ, before renames are found.
spec fn differing(t: Trio) -> Seq<Item> {
    items_among(t, with_keys(either(t.head, t.index), t.work))
}

proof fn lemma_differing(t: Trio)
    ensures
        once(differing(t)),
        forall|i: int|
            0 <= i < differing(t).len() ==> (#[trigger] differing(t)[i]) == item_at(t, differing(t)[i].path)
                && differs(t, differing(t)[i].path),
        well_paired(differing(t), t.head, t.index, differing(t).len() as int),
{
    let v = differing(t);
    let none: Seq<char> = seq![];
    lemma_all_named(t, none);
    lemma_items_among(t, with_keys(either(t.head, t.index), t.work));
    assert forall|i: int| 0 <= i < v.len() implies (#[trigger] v[i]).origin is None && v[i].staged != Some(
        Change::Renamed,
    ) && (v[i].staged == Some(Change::Deleted) ==> lookup(t.head, v[i].path) is Some) by {
        assert(v[i] == item_at(t, v[i].path));
    }
    lemma_well_paired(v, t.head, t.index, v.len() as int);
}

proof fn lemma_paired_tell(t: Trio, i: int)
    requires
        0 <= i < all_paired(t).0.len(),
    ensures
        all_paired(t).0.len() == differing(t).len(),
        all_paired(t).1.len() == differing(t).len(),
        tells(t, all_paired(t).0[i]),
        differs(t, all_paired(t).0[i].path),
        all_paired(t).0[i].path == differing(t)[i].path,
        all_paired(t).0[i].staged == Some(Change::Deleted) ==> all_paired(t).0[i] == differing(t)[i],
{
    let v = differing(t);
    let (w, gone) = all_paired(t);
    lemma_differing(t);
    assert(v[i] == item_at(t, v[i].path));
    assert(w[i] == v[i] || exists|j: int| #[trigger] moved(v, w, t.head, t.index, j, i) && gone[j]);
    if w[i] != v[i] {
        let j = choose|j: int| #[trigger] moved(v, w, t.head, t.index, j, i) && gone[j];
        assert(v[j] == item_at(t, v[j].path));
    }
}

proof fn lemma_paired_once(t: Trio)
    ensures
        all_paired(t).0.len() == differing(t).len(),
        all_paired(t).1.len() == differing(t).len(),
        once(all_paired(t).0),
{
    let v = differing(t);
    let (w, gone) = all_paired(t);
    lemma_differing(t);
    assert forall|i: int, j: int| 0 <= i < j < w.len() implies before((#[trigger] w[i]).path, (#[trigger] w[j]).path) by {
        lemma_paired_tell(t, i);
        lemma_paired_tell(t, j);
        assert(before(v[i].path, v[j].path));
    }
}

proof fn lemma_paired_speak(t: Trio, path: Seq<char>) -> (at: int)
    requires
        differs(t, path),
    ensures
        0 <= at < all_paired(t).0.len(),
        !all_paired(t).1[at],
        all_paired(t).0[at].path == path || all_paired(t).0[at].origin == Some(path),
{
    let names = with_keys(either(t.head, t.index), t.work);
    let v = differing(t);
    let (w, gone) = all_paired(t);
    lemma_differing(t);
    lemma_all_named(t, path);
    lemma_items_among(t, names);
    let k = choose|k: int| 0 <= k < names.len() && (#[trigger] names[k]).0 == path;
    let i = choose|i: int| 0 <= i < v.len() && (#[trigger] v[i]).path == names[k].0;
    if gone[i] {
        let at = choose|to: int| #[trigger] moved(v, w, t.head, t.index, i, to);
        assert(moved(v, w, t.head, t.index, i, at));
        if gone[at] {
            let further = choose|to: int| #[trigger] moved(v, w, t.head, t.index, at, to);
            assert(moved(v, w, t.head, t.index, at, further));
        }
        at
    } else {
        lemma_paired_tell(t, i);
        i
    }
}

proof fn lemma_paired_fully(t: Trio, a: int, b: int)
    requires
        0 <= a < all_paired(t).0.len(),
        0 <= b < all_paired(t).0.len(),
        !all_paired(t).1[a],
        all_paired(t).0[a].staged == Some(Change::Deleted),
        all_paired(t).0[b].staged == Some(Change::Added),
    ensures
        lookup(t.head, all_paired(t).0[a].path)->0.hash != lookup(t.index, all_paired(t).0[b].path)->0.hash,
{
    let v = differing(t);
    let (w, gone) = all_paired(t);
    lemma_differing(t);
    lemma_paired_tell(t, a);
    lemma_paired_tell(t, b);
    assert(!gone[a] && v[a].staged == Some(Change::Deleted));
    assert(!unpaired(w, t.head, t.index, v[a].path, b));
}

/// What a status says. Each item says of its path how the trees differ there: it is changed in the
/// working tree exactly if the index tracks it and the working tree does not hold the same, deleted
/// exactly if the working tree holds nothing there; and likewise of the index against HEAD. There is an
/// item for every path that differs, or one that was renamed from there, and for no other. No path
/// has two. What was deleted and what was added are left apart only where their contents differ.
pub proof fn lemma_status_tells(t: Trio)
    ensures
        forall|i: int|
            0 <= i < classified(t).len() ==> tells(t, #[trigger] classified(t)[i]) && differs(
                t,
                classified(t)[i].path,
            ),
        forall|path: Seq<char>| #[trigger] differs(t, path) ==> speaks_of(classified(t), path),
        forall|i: int, j: int|
            0 <= i < j < classified(t).len() ==> (#[trigger] classified(t)[i]).path != (
            #[trigger] classified(t)[j]).path,
        forall|i: int, j: int|
            0 <= i < classified(t).len() && 0 <= j < classified(t).len() && (#[trigger] classified(
                t,
            )[i]).staged == Some(Change::Deleted) && (#[trigger] classified(t)[j]).staged == Some(Change::Added)
                ==> lookup(t.head, classified(t)[i].path)->0.hash != lookup(
                t.index,
                classified(t)[j].path,
            )->0.hash,
{
    let (w, gone) = all_paired(t);
    let out = classified(t);
    assert(out == left_over(w, gone));
    lemma_paired_once(t);
    lemma_left_over(w, gone);
    assert forall|i: int| 0 <= i < out.len() implies tells(t, #[trigger] out[i]) && differs(t, out[i].path) by {
        let j = choose|j: int| 0 <= j < w.len() && !gone[j] && #[trigger] w[j] == out[i];
        lemma_paired_tell(t, j);
    }
    assert forall|path: Seq<char>| #[trigger] differs(t, path) implies speaks_of(out, path) by {
        let at = lemma_paired_speak(t, path);
        assert(out.contains(w[at]));
        let n = choose|n: int| 0 <= n < out.len() && out[n] == w[at];
        assert(out[n].path == path || out[n].origin == Some(path));
    }
    assert forall|i: int, j: int| 0 <= i < j < out.len() implies (#[trigger] out[i]).path != (
    #[trigger] out[j]).path by {
        assert(before(out[i].path, out[j].path));
        lemma_before_irreflexive(out[i].path);
    }
    assert forall|i: int, j: int|
        0 <= i < out.len() && 0 <= j < out.len() && (#[trigger] out[i]).staged == Some(Change::Deleted) && (
        #[trigger] out[j]).staged == Some(Change::Added) implies lookup(t.head, out[i].path)->0.hash != lookup(
        t.index,
        out[j].path,
    )->0.hash by {
        let a = choose|a: int| 0 <= a < w.len() && !gone[a] && #[trigger] w[a] == out[i];
        let b = choose|b: int| 0 <= b < w.len() && !gone[b] && #[trigger] w[b] == out[j];
        lemma_paired_fully(t, a, b);
    }
}

// ---------------------------------------------------------------------------
// The short format
// ---------------------------------------------------------------------------

/// The letter of a change, or a space where there is none.
pub open spec fn code(c: Option<Change>) -> char {
    match c {
        Some(Change::Added) => 'A',
        Some(Change::Modified) => 'M',
        Some(Change::Deleted) => 'D',
        Some(Change::Renamed) => 'R',
        None => ' ',
    }
}

/// The line of an item: the letters of what is staged and of what is not, and the path, behind the one
/// that it was renamed from.
pub open spec fn item_line(x: Item) -> Seq<char> {
    seq![code(x.staged), code(x.unstaged), ' '] + (match x.origin {
        Some(o) => o + " -> "@ + x.path,
        None => x.path,
    })
}

proof fn lemma_line_placed(v: Seq<Sortable>, e: Sortable)
    ensures
        line_placed(v, e).to_multiset() == v.to_multiset().insert(e),
    decreases v.len(),
{
    broadcast use vstd::seq_lib::group_to_multiset_ensures;

    if v.len() == 0 {
        assert(line_placed(v, e) =~= v.push(e));
    } else if before(e.0, v.last().0) {
        lemma_line_placed(v.drop_last(), e);
        assert(v =~= v.drop_last().push(v.last()));
    }
}

/// The lines of items with the paths that they are sorted by.
pub open spec fn item_lines(v: Seq<Item>) -> Seq<Sortable> {
    v.map_values(|x: Item| (x.path, item_line(x)))
}

proof fn lemma_short_tracked(v: Seq<Sortable>, items: Seq<Item>)
    ensures
        short_tracked(v, items).to_multiset() == v.to_multiset().add(item_lines(items).to_multiset()),
    decreases items.len(),
{
    broadcast use vstd::seq_lib::group_to_multiset_ensures;

    let all = item_lines(items);
    if items.len() == 0 {
        assert(all =~= seq![]);
        assert(short_tracked(v, items).to_multiset() =~= v.to_multiset().add(all.to_multiset()));
    } else {
        let x = items.last();
        lemma_short_tracked(v, items.drop_last());
        reveal_strlit("");
        reveal_strlit(" ");
        let line = ""@.push(letter_or(x.staged, ' ')).push(letter_or(x.unstaged, ' ')) + " "@ + shown(x);
        assert(line =~= item_line(x));
        lemma_line_placed(short_tracked(v, items.drop_last()), (x.path, line));
        assert(all =~= item_lines(items.drop_last()).push((x.path, line)));
        assert(short_tracked(v, items).to_multiset() =~= v.to_multiset().add(all.to_multiset()));
    }
}

/// The short format has one line for each item of the report, and one for each unmerged path, and no
/// other among them.
pub proof fn lemma_short_lines(unmerged: Conflicts, items: Seq<Item>)
    ensures
        short_tracked(short_unmerged(unmerged), items).to_multiset() == short_unmerged(
            unmerged,
        ).to_multiset().add(item_lines(items).to_multiset()),
        forall|i: int|
            0 <= i < items.len() ==> lines_only(short_tracked(short_unmerged(unmerged), items)).contains(
                item_line(#[trigger] items[i]),
            ),
{
    broadcast use vstd::seq_lib::group_to_multiset_ensures;

    let first = short_unmerged(unmerged);
    let all = short_tracked(first, items);
    lemma_short_tracked(first, items);
    assert forall|i: int| 0 <= i < items.len() implies lines_only(all).contains(item_line(#[trigger] items[i])) by {
        let e = (items[i].path, item_line(items[i]));
        assert(item_lines(items)[i] == e);
        assert(item_lines(items).contains(e));
        assert(item_lines(items).to_multiset().count(e) > 0);
        assert(all.to_multiset().count(e) > 0);
        assert(all.contains(e));
        let k = choose|k: int| 0 <= k < all.len() && all[k] == e;
        assert(lines_only(all)[k] == item_line(items[i]));
    }
}

proof fn lemma_items_reported(v: Seq<Item>, unmerged: Conflicts, paths: Seq<Seq<char>>)
    ensures
        forall|x: Item| #[trigger]
            items_reported(v, unmerged, paths).contains(x) <==> v.contains(x) && reported(x, unmerged, paths),
    decreases v.len(),
{
    let out = items_reported(v, unmerged, paths);
    if v.len() > 0 {
        let less = v.drop_last();
        lemma_items_reported(less, unmerged, paths);
        let a = items_reported(less, unmerged, paths);
        assert forall|x: Item| #[trigger] out.contains(x) <==> v.contains(x) && reported(x, unmerged, paths) by {
            if v.contains(x) && reported(x, unmerged, paths) {
                let i = choose|i: int| 0 <= i < v.len() && v[i] == x;
                if i < less.len() {
                    assert(less[i] == x);
                    assert(less.contains(x));
                    assert(a.contains(x));
                    let k = choose|k: int| 0 <= k < a.len() && a[k] == x;
                    assert(out[k] == x);
                } else {
                    assert(out.last() == x);
                }
            }
            if out.contains(x) {
                let k = choose|k: int| 0 <= k < out.len() && out[k] == x;
                if k < a.len() {
                    assert(a[k] == x);
                    assert(a.contains(x));
                    let i = choose|i: int| 0 <= i < less.len() && less[i] == x;
                    assert(v[i] == x);
                } else {
                    assert(v[v.len() - 1] == x);
                }
            }
        }
    }
}

/// Whether a report has a line for a path: the letters of its changes, and how the path is seen from
/// the working directory.
pub open spec fn has_line(m: Machine, root: Seq<char>, asked: StatusAsk, paths: Seq<Seq<char>>, t: Trio, x: Item) -> bool {
    let r = summary_of(m, root, asked, paths, t);
    lines_only(short_tracked(short_unmerged(r.unmerged), r.items)).contains(
        item_line(item_seen(cwd_prefix(root, m.cwd), x)),
    )
}

/// A path that the index tracks and the working tree does not hold as the index does is a line of the
/// short status, with `D` in the second column exactly if the working tree holds nothing there, and
/// `M` otherwise. The path is asked for and is not unmerged.
pub proof fn lemma_changed_path_has_line(
    m: Machine,
    root: Seq<char>,
    asked: StatusAsk,
    paths: Seq<Seq<char>>,
    t: Trio,
    path: Seq<char>,
) -> (x: Item)
    requires
        lookup(t.index, path) is Some,
        lookup(t.work, path) != lookup(t.index, path),
        covered(paths, path),
        lookup(conflicts_of(m, root), path) is None,
    ensures
        x.path == path,
        code(x.unstaged) == (if lookup(t.work, path) is None {
            'D'
        } else {
            'M'
        }),
        has_line(m, root, asked, paths, t, x),
{
    let v = classified(t);
    let unmerged = conflicts_of(m, root);
    let r = summary_of(m, root, asked, paths, t);
    let prefix = cwd_prefix(root, m.cwd);
    lemma_status_tells(t);
    assert(differs(t, path));
    let i = choose|i: int| 0 <= i < v.len() && ((#[trigger] v[i]).path == path || v[i].origin == Some(path));
    let x = v[i];
    assert(tells(t, x));
    assert(x.path == path);
    assert(x.unstaged is Some);
    assert(x.unstaged == Some(Change::Deleted) || x.unstaged == Some(Change::Modified));
    let shown_items = items_reported(v, unmerged, paths);
    lemma_items_reported(v, unmerged, paths);
    assert(v.contains(x));
    assert(shown_items.contains(x));
    let k = choose|k: int| 0 <= k < shown_items.len() && shown_items[k] == x;
    assert(r.items[k] == item_seen(prefix, x));
    lemma_short_lines(r.unmerged, r.items);
    x
}

/// What a status lists as untracked, where every file is listed by itself: exactly the paths that the
/// working tree holds and the index does not, that are asked for, and that are not ignored. Those that
/// are ignored are listed as such, where that is asked for.
pub proof fn lemma_untracked_listed(t: Trio, paths: Seq<Seq<char>>, rules: Seq<Rule>, asked: StatusAsk, path: Seq<char>)
    requires
        asked.untracked == Untracked::All,
        ascending(t.work),
    ensures
        loose_listed(t, paths, rules, false, asked).contains(path) <==> lookup(t.work, path) is Some && lookup(
            t.index,
            path,
        ) is None && covered(paths, path) && !ignores(rules, path),
        loose_listed(t, paths, rules, true, asked).contains(path) <==> asked.show_ignored && lookup(t.work, path) is Some
            && lookup(t.index, path) is None && covered(paths, path) && ignores(rules, path),
{
    lemma_loose(t, paths, rules, false, path);
    lemma_loose(t, paths, rules, true, path);
}

proof fn lemma_loose(t: Trio, paths: Seq<Seq<char>>, rules: Seq<Rule>, ignored: bool, path: Seq<char>)
    requires
        ascending(t.work),
    ensures
        kept(keys_of(t.work), loose_test(t, paths, rules, ignored)).contains(path) <==> lookup(t.work, path) is Some
            && is_loose(t, paths, rules, ignored, path),
{
    let all = keys_of(t.work);
    let test = loose_test(t, paths, rules, ignored);
    if kept(all, test).contains(path) {
        lemma_kept_passes(all, test, path);
        let i = choose|i: int| 0 <= i < all.len() && all[i] == path;
        assert(t.work[i].0 == path);
        lemma_lookup_at(t.work, i);
    }
    if lookup(t.work, path) is Some && is_loose(t, paths, rules, ignored, path) {
        let i = lemma_lookup_place(t.work, path);
        assert(all[i] == path);
        lemma_kept_holds(all, test, path);
    }
}

} // verus!
