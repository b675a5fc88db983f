//! Which commits a rebase replays, and in what order.

use vstd::prelude::*;

use crate::history::{ancestry, first_parents, within, Listed, Names};
use crate::lineage::parent_of;
use crate::order::{bind, lemma_lookup_bind};
use crate::rebasing::{ids_until, to_replay};
use crate::repo::commit_of;
use crate::revset::MAX_LISTED;
use crate::system::Machine;

verus! {

/// Whether each entry of a list can be read, and is the first parent of the one before it.
spec fn one_line_back(m: Machine, root: Seq<char>, f: Seq<Listed>) -> bool {
    &&& forall|k: int| 0 <= k < f.len() ==> commit_of(m, root, (#[trigger] f[k]).0) == Some(f[k].1)
    &&& forall|k: int, j: int|
        0 <= k && j == k + 1 && j < f.len() ==> parent_of(m, root, (#[trigger] f[k]).0) == Some(
            (#[trigger] f[j]).0,
        )
}

proof fn lemma_first_parents(m: Machine, root: Seq<char>, id: Seq<char>, limit: nat, seen: Names)
    ensures
        ({
            let f = first_parents(m, root, Some(id), limit, seen);
            &&& f.len() <= limit
            &&& f.len() == 0 <==> limit == 0 || within(seen, id) || commit_of(m, root, id) is None
            &&& f.len() > 0 ==> f[0].0 == id
            &&& one_line_back(m, root, f)
            &&& 0 < f.len() < limit ==> (match parent_of(m, root, f.last().0) {
                None => true,
                Some(p) => commit_of(m, root, p) is None || within(seen, p) || exists|k: int|
                    0 <= k < f.len() && (#[trigger] f[k]).0 == p,
            })
        }),
    decreases limit,
{
    let f = first_parents(m, root, Some(id), limit, seen);
    if f.len() > 0 {
        let n = commit_of(m, root, id)->0;
        let more = bind(seen, id, ());
        if n.parents.len() > 0 {
            let rest = first_parents(m, root, Some(n.parents[0]), (limit - 1) as nat, more);
            lemma_first_parents(m, root, n.parents[0], (limit - 1) as nat, more);
            assert(f =~= seq![(id, n)] + rest);
            assert forall|k: int| 0 <= k < f.len() implies commit_of(m, root, (#[trigger] f[k]).0) == Some(
                f[k].1,
            ) by {
                if k > 0 {
                    assert(f[k] == rest[k - 1]);
                }
            }
            assert forall|k: int, j: int| 0 <= k && j == k + 1 && j < f.len() implies parent_of(
                m,
                root,
                (#[trigger] f[k]).0,
            ) == Some((#[trigger] f[j]).0) by {
                assert(f[j] == rest[j - 1]);
                if k > 0 {
                    assert(f[k] == rest[k - 1]);
                }
            }
            if f.len() < limit {
                if rest.len() > 0 {
                    assert(f.last() == rest.last());
                }
                if let Some(p) = parent_of(m, root, f.last().0) {
                    lemma_lookup_bind(seen, id, (), p);
                    if p == id {
                        assert(f[0].0 == p);
                    } else if rest.len() > 0 && exists|k: int| 0 <= k < rest.len() && (#[trigger] rest[k]).0 == p {
                        let k = choose|k: int| 0 <= k < rest.len() && (#[trigger] rest[k]).0 == p;
                        assert(f[k + 1].0 == p);
                    }
                }
            }
        } else {
            assert(first_parents(m, root, None, (limit - 1) as nat, more) =~= seq![]);
            assert(f =~= seq![(id, n)]);
        }
    }
}

/// Where the ids that are taken from `i` on end: at the first that is among the others.
proof fn lemma_ids_until(v: Seq<Listed>, others: Names, i: int) -> (n: int)
    requires
        0 <= i <= v.len(),
    ensures
        i <= n <= v.len(),
        forall|k: int| i <= k < n ==> !within(others, (#[trigger] v[k]).0),
        n < v.len() ==> within(others, v[n].0),
        ids_until(v, others, i).len() == n - i,
        forall|k: int| 0 <= k < n - i ==> #[trigger] ids_until(v, others, i)[k] == v[n - 1 - k].0,
    decreases v.len() - i,
{
    if i >= v.len() || within(others, v[i].0) {
        i
    } else {
        let n = lemma_ids_until(v, others, i + 1);
        let rest = ids_until(v, others, i + 1);
        let all = ids_until(v, others, i);
        assert(all == rest.push(v[i].0));
        assert forall|k: int| 0 <= k < n - i implies #[trigger] all[k] == v[n - 1 - k].0 by {
            if k < rest.len() {
                assert(all[k] == rest[k]);
            }
        }
        n
    }
}

/// What a rebase replays: the commits from the head along first parents that the upstream does not
/// have, the oldest first. Every commit comes right after its first parent, the head comes last, and
/// none is an ancestor of the upstream. The first parent of the first is an ancestor of the upstream,
/// or there is none that can be read; at most so many are listed, and a commit that leads back to
/// itself is listed once.
pub proof fn lemma_replayed_oldest_first(m: Machine, root: Seq<char>, head: Seq<char>, upstream: Seq<char>)
    ensures
        ({
            let v = to_replay(m, root, head, upstream);
            let others = ancestry(m, root, upstream);
            &&& v.len() == 0 <==> commit_of(m, root, head) is None || within(others, head)
            &&& v.len() > 0 ==> v.last() == head
            &&& forall|i: int|
                0 <= i < v.len() ==> commit_of(m, root, #[trigger] v[i]) is Some && !within(others, v[i])
            &&& forall|i: int, j: int|
                0 <= i && j == i + 1 && j < v.len() ==> parent_of(m, root, #[trigger] v[j]) == Some(#[trigger] v[i])
            &&& 0 < v.len() < MAX_LISTED ==> (match parent_of(m, root, v[0]) {
                None => true,
                Some(p) => within(others, p) || commit_of(m, root, p) is None || v.contains(p),
            })
        }),
{
    let v = to_replay(m, root, head, upstream);
    let others = ancestry(m, root, upstream);
    let f = first_parents(m, root, Some(head), MAX_LISTED as nat, seq![]);
    let none: Names = seq![];
    lemma_first_parents(m, root, head, MAX_LISTED as nat, none);
    assert(!within(none, head));
    let n = lemma_ids_until(f, others, 0);
    assert(v.len() == n);
    if n > 0 {
        assert(v.last() == v[n - 1]);
        assert(v[n - 1] == f[0].0);
        assert(v[0] == f[n - 1].0);
    } else if f.len() > 0 {
        assert(within(others, f[0].0));
    }
    assert forall|i: int| 0 <= i < v.len() implies commit_of(m, root, #[trigger] v[i]) is Some && !within(
        others,
        v[i],
    ) by {
        assert(v[i] == f[n - 1 - i].0);
    }
    assert forall|i: int, j: int| 0 <= i && j == i + 1 && j < v.len() implies parent_of(m, root, #[trigger] v[j])
        == Some(#[trigger] v[i]) by {
        assert(v[j] == f[n - 1 - j].0);
        assert(v[i] == f[n - 1 - i].0);
    }
    if 0 < n < MAX_LISTED {
        if let Some(p) = parent_of(m, root, v[0]) {
            if n < f.len() {
                assert(f[n].0 == p);
            } else {
                assert(f.last() == f[n - 1]);
                assert(!within(none, p));
                if commit_of(m, root, p) is Some {
                    let k = choose|k: int| 0 <= k < f.len() && (#[trigger] f[k]).0 == p;
                    assert(v[n - 1 - k] == p);
                }
            }
        }
    }
}

} // verus!
