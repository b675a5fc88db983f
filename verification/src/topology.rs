//! The order in which history is listed: no commit before one that leads to it, and none left out.

use vstd::prelude::*;

use crate::bases::{handed_down, leads_to, lemma_linked, lemma_linked_only, linked};
use crate::history::{
    all_listed, child_links, found_from, link_closed, links_closed, listing, next_ready, one_listed, place_of,
    reachable, times, tips, unsorted, Listed, Sorting,
};
use crate::repo::commit_of;
use crate::system::Machine;

verus! {

/// Whether no two commits of a list have the same name.
pub open spec fn distinct(v: Seq<Listed>) -> bool {
    forall|i: int, j: int| 0 <= i < j < v.len() ==> #[trigger] v[i].0 != #[trigger] v[j].0
}

/// How many links lead to `id` from those of the first `n` commits that are not listed yet.
spec fn links_left(v: Seq<Listed>, out: Seq<int>, id: Seq<char>, n: int) -> int
    decreases n,
{
    if n <= 0 {
        0
    } else {
        links_left(v, out, id, n - 1) + if out.contains(n - 1) {
            0int
        } else {
            times(v[n - 1].1.parents, id) as int
        }
    }
}

proof fn lemma_links_at_start(v: Seq<Listed>, id: Seq<char>, n: int)
    requires
        0 <= n <= v.len(),
    ensures
        links_left(v, seq![], id, n) == child_links(v.take(n), id),
    decreases n,
{
    if n > 0 {
        lemma_links_at_start(v, id, n - 1);
        assert(v.take(n).drop_last() =~= v.take(n - 1));
        assert(v.take(n).last() == v[n - 1]);
        assert(!Seq::<int>::empty().contains(n - 1));
    }
}

proof fn lemma_links_bound(v: Seq<Listed>, out: Seq<int>, id: Seq<char>, n: int)
    ensures
        links_left(v, out, id, n) >= 0,
    decreases n,
{
    if n > 0 {
        lemma_links_bound(v, out, id, n - 1);
    }
}

proof fn lemma_link_counts(v: Seq<Listed>, out: Seq<int>, id: Seq<char>, n: int, a: int)
    requires
        0 <= a < n,
        !out.contains(a),
    ensures
        links_left(v, out, id, n) >= times(v[a].1.parents, id),
    decreases n,
{
    if a < n - 1 {
        lemma_link_counts(v, out, id, n - 1, a);
    } else {
        lemma_links_bound(v, out, id, n - 1);
    }
}

proof fn lemma_some_link(v: Seq<Listed>, out: Seq<int>, id: Seq<char>, n: int) -> (a: int)
    requires
        links_left(v, out, id, n) > 0,
    ensures
        0 <= a < n,
        !out.contains(a),
        times(v[a].1.parents, id) > 0,
    decreases n,
{
    if n > 0 && !out.contains(n - 1) && times(v[n - 1].1.parents, id) > 0 {
        n - 1
    } else {
        lemma_some_link(v, out, id, n - 1)
    }
}

proof fn lemma_links_after(v: Seq<Listed>, out: Seq<int>, id: Seq<char>, n: int, k: int)
    requires
        0 <= k,
        !out.contains(k),
    ensures
        links_left(v, out.push(k), id, n) == links_left(v, out, id, n) - (if k < n {
            times(v[k].1.parents, id) as int
        } else {
            0
        }),
    decreases n,
{
    if n > 0 {
        lemma_links_after(v, out, id, n - 1, k);
        let more = out.push(k);
        assert(more.contains(n - 1) == (out.contains(n - 1) || k == n - 1)) by {
            if out.contains(n - 1) {
                let i = choose|i: int| 0 <= i < out.len() && out[i] == n - 1;
                assert(more[i] == n - 1);
            }
            if k == n - 1 {
                assert(more[out.len() as int] == n - 1);
            }
            if more.contains(n - 1) {
                let i = choose|i: int| 0 <= i < more.len() && more[i] == n - 1;
                if i < out.len() {
                    assert(out[i] == n - 1);
                }
            }
        }
    }
}

proof fn lemma_place(v: Seq<Listed>, k: int)
    requires
        distinct(v),
        0 <= k < v.len(),
    ensures
        place_of(v, v[k].0) == Some(k),
    decreases v.len(),
{
    if k < v.len() - 1 {
        let w = v.drop_last();
        assert(v[k].0 != v[v.len() - 1].0);
        assert forall|i: int, j: int| 0 <= i < j < w.len() implies #[trigger] w[i].0
            != #[trigger] w[j].0 by {
            assert(w[i] == v[i] && w[j] == v[j]);
        }
        lemma_place(w, k);
        assert(w[k] == v[k]);
    }
}

proof fn lemma_place_named(v: Seq<Listed>, id: Seq<char>)
    ensures
        place_of(v, id) matches Some(k) ==> 0 <= k < v.len() && v[k].0 == id,
        place_of(v, id) is None ==> forall|i: int| 0 <= i < v.len() ==> #[trigger] v[i].0 != id,
    decreases v.len(),
{
    if v.len() > 0 {
        let w = v.drop_last();
        lemma_place_named(w, id);
        if place_of(v, id) is None {
            assert forall|i: int| 0 <= i < v.len() implies #[trigger] v[i].0 != id by {
                if i < w.len() {
                    assert(w[i] == v[i]);
                }
            }
        } else if v.last().0 != id {
            let k = place_of(w, id)->0;
            assert(w[k] == v[k]);
        }
    }
}

/// Whether positions are all different.
spec fn different(s: Seq<int>) -> bool {
    forall|i: int, j: int| 0 <= i < j < s.len() ==> #[trigger] s[i] != #[trigger] s[j]
}

/// What holds of the sorting also while the links of one commit are being closed.
spec fn in_step(v: Seq<Listed>, s: Sorting) -> bool {
    &&& s.open.len() == v.len()
    &&& different(s.ready)
    &&& different(s.out)
    &&& forall|i: int| 0 <= i < s.ready.len() ==> 0 <= #[trigger] s.ready[i] < v.len()
    &&& forall|i: int| 0 <= i < s.out.len() ==> 0 <= #[trigger] s.out[i] < v.len()
    &&& forall|i: int| 0 <= i < s.ready.len() ==> s.open[#[trigger] s.ready[i]] == 0
    &&& forall|i: int| 0 <= i < s.out.len() ==> s.open[#[trigger] s.out[i]] == 0
    &&& forall|i: int, j: int|
        0 <= i < s.ready.len() && 0 <= j < s.out.len() ==> #[trigger] s.ready[i]
            != #[trigger] s.out[j]
    &&& forall|k: int| 0 <= k < v.len() ==> #[trigger] s.open[k] >= 0
}

/// Every commit without an open link is ready, listed or the one that is being listed.
spec fn none_lost(v: Seq<Listed>, s: Sorting, now: int) -> bool {
    forall|k: int|
        0 <= k < v.len() && #[trigger] s.open[k] == 0 ==> s.ready.contains(k) || s.out.contains(k)
            || k == now
}

/// What holds of the sorting between two commits.
spec fn sorted_so_far(v: Seq<Listed>, s: Sorting) -> bool {
    &&& in_step(v, s)
    &&& none_lost(v, s, -1)
    &&& forall|k: int|
        0 <= k < v.len() ==> #[trigger] s.open[k] == links_left(v, s.out, v[k].0, v.len() as int)
    &&& children_first(v, s.out)
}

/// Whether every commit of a list that leads to one at a position stands before it.
pub open spec fn children_first(v: Seq<Listed>, out: Seq<int>) -> bool {
    forall|j: int, a: int|
        0 <= j < out.len() && 0 <= a < v.len() && times(v[a].1.parents, v[#[trigger] out[j]].0) > 0
            ==> #[trigger] stands_before(out, j, a)
}

/// Whether a commit stands before a position.
pub open spec fn stands_before(out: Seq<int>, j: int, a: int) -> bool {
    exists|i: int| 0 <= i < j && #[trigger] out[i] == a
}

proof fn lemma_link_closed(v: Seq<Listed>, s: Sorting, id: Seq<char>, now: int)
    requires
        distinct(v),
        in_step(v, s),
        none_lost(v, s, now),
        0 <= now < v.len(),
        s.open[now] == 0,
        !s.ready.contains(now),
        !s.out.contains(now),
        place_of(v, id) matches Some(k) ==> s.open[k] > 0,
    ensures
        in_step(v, link_closed(v, s, id)),
        none_lost(v, link_closed(v, s, id), now),
        link_closed(v, s, id).open[now] == 0,
        !link_closed(v, s, id).ready.contains(now),
        link_closed(v, s, id).out == s.out,
        forall|k: int|
            0 <= k < v.len() ==> #[trigger] link_closed(v, s, id).open[k] == s.open[k] - (if v[k].0
                == id {
                1int
            } else {
                0
            }),
{
    lemma_place_named(v, id);
    let t = link_closed(v, s, id);
    match place_of(v, id) {
        None => {},
        Some(k) => {
            lemma_place(v, k);
            assert(k != now);
            assert(!s.ready.contains(k)) by {
                if s.ready.contains(k) {
                    let i = choose|i: int| 0 <= i < s.ready.len() && s.ready[i] == k;
                    assert(s.open[s.ready[i]] == 0);
                }
            }
            assert(!s.out.contains(k)) by {
                if s.out.contains(k) {
                    let i = choose|i: int| 0 <= i < s.out.len() && s.out[i] == k;
                    assert(s.open[s.out[i]] == 0);
                }
            }
            assert forall|j: int| 0 <= j < v.len() implies #[trigger] t.open[j] == s.open[j] - (if v[j].0
                == id {
                1int
            } else {
                0
            }) by {
                if v[j].0 == id && j != k {
                    lemma_place(v, j);
                }
            }
            assert forall|i: int| 0 <= i < t.ready.len() implies 0 <= #[trigger] t.ready[i] < v.len()
                && t.open[t.ready[i]] == 0 by {
                if i < s.ready.len() {
                    assert(t.ready[i] == s.ready[i]);
                    assert(s.ready.contains(s.ready[i]));
                }
            }
            assert forall|i: int, j: int| 0 <= i < j < t.ready.len() implies #[trigger] t.ready[i]
                != #[trigger] t.ready[j] by {
                assert(t.ready[i] == s.ready[i]);
                assert(s.ready.contains(s.ready[i]));
                if j < s.ready.len() {
                    assert(t.ready[j] == s.ready[j]);
                }
            }
            assert forall|i: int| 0 <= i < t.out.len() implies t.open[#[trigger] t.out[i]] == 0 by {
                assert(s.out.contains(s.out[i]));
                assert(s.open[s.out[i]] == 0);
            }
            assert forall|i: int, j: int|
                0 <= i < t.ready.len() && 0 <= j < t.out.len() implies #[trigger] t.ready[i]
                != #[trigger] t.out[j] by {
                assert(s.out.contains(s.out[j]));
                if i < s.ready.len() {
                    assert(t.ready[i] == s.ready[i]);
                }
            }
            assert(!t.ready.contains(now)) by {
                if t.ready.contains(now) {
                    let i = choose|i: int| 0 <= i < t.ready.len() && t.ready[i] == now;
                    if i < s.ready.len() {
                        assert(s.ready[i] == now);
                    }
                }
            }
            assert forall|j: int| 0 <= j < v.len() && #[trigger] t.open[j] == 0 implies t.ready.contains(
                j,
            ) || t.out.contains(j) || j == now by {
                if j == k {
                    assert(t.ready[s.ready.len() as int] == k);
                } else {
                    assert(s.open[j] == 0);
                    if s.ready.contains(j) {
                        let i = choose|i: int| 0 <= i < s.ready.len() && s.ready[i] == j;
                        assert(t.ready[i] == j);
                    }
                }
            }
        },
    }
}

proof fn lemma_times_less(parents: Seq<Seq<char>>, id: Seq<char>)
    requires
        parents.len() > 0,
    ensures
        times(parents.drop_last(), id) <= times(parents, id),
        times(parents, parents.last()) >= 1,
{
}

proof fn lemma_links_closed(v: Seq<Listed>, s: Sorting, parents: Seq<Seq<char>>, now: int)
    requires
        distinct(v),
        in_step(v, s),
        none_lost(v, s, now),
        0 <= now < v.len(),
        s.open[now] == 0,
        !s.ready.contains(now),
        !s.out.contains(now),
        forall|k: int| 0 <= k < v.len() ==> #[trigger] s.open[k] >= times(parents, v[k].0),
    ensures
        in_step(v, links_closed(v, s, parents)),
        none_lost(v, links_closed(v, s, parents), now),
        links_closed(v, s, parents).open[now] == 0,
        !links_closed(v, s, parents).ready.contains(now),
        links_closed(v, s, parents).out == s.out,
        forall|k: int|
            0 <= k < v.len() ==> #[trigger] links_closed(v, s, parents).open[k] == s.open[k]
                - times(parents, v[k].0),
    decreases parents.len(),
{
    if parents.len() > 0 {
        let less = parents.drop_last();
        let id = parents.last();
        assert forall|k: int| 0 <= k < v.len() implies #[trigger] s.open[k] >= times(
            less,
            v[k].0,
        ) by {
            lemma_times_less(parents, v[k].0);
        }
        lemma_links_closed(v, s, less, now);
        let t = links_closed(v, s, less);
        lemma_place_named(v, id);
        if let Some(k) = place_of(v, id) {
            assert(times(parents, v[k].0) == times(less, v[k].0) + 1);
            assert(s.open[k] >= times(parents, v[k].0));
            assert(t.open[k] == s.open[k] - times(less, v[k].0));
        }
        lemma_link_closed(v, t, id, now);
        let u = link_closed(v, t, id);
        assert forall|k: int| 0 <= k < v.len() implies #[trigger] u.open[k] == s.open[k] - times(
            parents,
            v[k].0,
        ) by {
            assert(t.open[k] == s.open[k] - times(less, v[k].0));
        }
    }
}

proof fn lemma_next_ready(v: Seq<Listed>, ready: Seq<int>, n: int)
    requires
        1 <= n <= ready.len(),
    ensures
        0 <= next_ready(v, ready, n) < n,
    decreases n,
{
    if n > 1 {
        lemma_next_ready(v, ready, n - 1);
    }
}

proof fn lemma_one_listed(v: Seq<Listed>, s: Sorting)
    requires
        distinct(v),
        sorted_so_far(v, s),
        s.ready.len() > 0,
    ensures
        sorted_so_far(v, one_listed(v, s)),
        one_listed(v, s).out.len() == s.out.len() + 1,
{
    let n = v.len() as int;
    let at = next_ready(v, s.ready, s.ready.len() as int);
    lemma_next_ready(v, s.ready, s.ready.len() as int);
    let k = s.ready[at];
    let rest = s.ready.remove(at);
    let begin = Sorting { open: s.open, ready: rest, out: s.out };
    assert(s.open[s.ready[at]] == 0);
    assert forall|i: int| 0 <= i < rest.len() implies 0 <= #[trigger] rest[i] < v.len()
        && s.open[rest[i]] == 0 && rest[i] != k by {
        if i < at {
            assert(rest[i] == s.ready[i]);
        } else {
            assert(rest[i] == s.ready[i + 1]);
        }
    }
    assert forall|i: int, j: int| 0 <= i < j < rest.len() implies #[trigger] rest[i]
        != #[trigger] rest[j] by {
        let x = if i < at {
            i
        } else {
            i + 1
        };
        let y = if j < at {
            j
        } else {
            j + 1
        };
        assert(rest[i] == s.ready[x] && rest[j] == s.ready[y]);
    }
    assert forall|i: int, j: int| 0 <= i < rest.len() && 0 <= j < s.out.len() implies #[trigger] rest[i]
        != #[trigger] s.out[j] by {
        let x = if i < at {
            i
        } else {
            i + 1
        };
        assert(rest[i] == s.ready[x]);
    }
    assert(!rest.contains(k)) by {
        if rest.contains(k) {
            let i = choose|i: int| 0 <= i < rest.len() && rest[i] == k;
            assert(rest[i] != k);
        }
    }
    assert(!s.out.contains(k)) by {
        if s.out.contains(k) {
            let j = choose|j: int| 0 <= j < s.out.len() && s.out[j] == k;
            assert(s.ready[at] != s.out[j]);
        }
    }
    assert(none_lost(v, begin, k)) by {
        assert forall|j: int| 0 <= j < v.len() && #[trigger] begin.open[j] == 0 implies rest.contains(
            j,
        ) || s.out.contains(j) || j == k by {
            assert(s.open[j] == 0);
            if s.ready.contains(j) && j != k {
                let i = choose|i: int| 0 <= i < s.ready.len() && s.ready[i] == j;
                if i < at {
                    assert(rest[i] == j);
                } else {
                    assert(rest[i - 1] == j);
                }
            }
        }
    }
    let parents = v[k].1.parents;
    assert forall|j: int| 0 <= j < v.len() implies #[trigger] begin.open[j] >= times(
        parents,
        v[j].0,
    ) by {
        assert(s.open[j] == links_left(v, s.out, v[j].0, n));
        lemma_link_counts(v, s.out, v[j].0, n, k);
    }
    lemma_links_closed(v, begin, parents, k);
    let t = links_closed(v, begin, parents);
    let u = one_listed(v, s);
    assert(u.out == s.out.push(k));
    assert forall|j: int| 0 <= j < v.len() implies #[trigger] u.open[j] == links_left(
        v,
        u.out,
        v[j].0,
        n,
    ) by {
        assert(t.open[j] == begin.open[j] - times(parents, v[j].0));
        assert(s.open[j] == links_left(v, s.out, v[j].0, n));
        lemma_links_after(v, s.out, v[j].0, n, k);
    }
    assert forall|i: int, j: int| 0 <= i < j < u.out.len() implies #[trigger] u.out[i]
        != #[trigger] u.out[j] by {
        assert(u.out[i] == s.out[i]);
        assert(s.out.contains(s.out[i]));
        if j < s.out.len() {
            assert(u.out[j] == s.out[j]);
        }
    }
    assert forall|i: int| 0 <= i < u.out.len() implies 0 <= #[trigger] u.out[i] < v.len()
        && u.open[u.out[i]] == 0 by {
        if i < s.out.len() {
            assert(u.out[i] == s.out[i]);
            assert(t.open[t.out[i]] == 0);
        }
    }
    assert forall|i: int, j: int| 0 <= i < u.ready.len() && 0 <= j < u.out.len() implies #[trigger] u.ready[i]
        != #[trigger] u.out[j] by {
        assert(u.ready[i] == t.ready[i]);
        if j < s.out.len() {
            assert(u.out[j] == t.out[j]);
        } else {
            assert(t.ready.contains(t.ready[i]));
        }
    }
    assert(none_lost(v, u, -1)) by {
        assert forall|j: int| 0 <= j < v.len() && #[trigger] u.open[j] == 0 implies u.ready.contains(
            j,
        ) || u.out.contains(j) || j == -1 by {
            assert(t.open[j] == 0);
            if t.out.contains(j) {
                let i = choose|i: int| 0 <= i < t.out.len() && t.out[i] == j;
                assert(u.out[i] == j);
            } else if j == k {
                assert(u.out[s.out.len() as int] == k);
            }
        }
    }
    assert(children_first(v, u.out)) by {
        assert forall|j: int, a: int|
            0 <= j < u.out.len() && 0 <= a < v.len() && times(
                v[a].1.parents,
                v[#[trigger] u.out[j]].0,
            ) > 0 implies #[trigger] stands_before(u.out, j, a) by {
            if j < s.out.len() {
                assert(u.out[j] == s.out[j]);
                assert(stands_before(s.out, j, a));
                let i = choose|i: int| 0 <= i < j && #[trigger] s.out[i] == a;
                assert(u.out[i] == a);
            } else {
                assert(u.out[j] == k);
                assert(s.open[k] == links_left(v, s.out, v[k].0, n));
                if !s.out.contains(a) {
                    lemma_link_counts(v, s.out, v[k].0, n, a);
                }
                let i = choose|i: int| 0 <= i < s.out.len() && s.out[i] == a;
                assert(u.out[i] == a);
            }
        }
    }
}

proof fn lemma_all_listed(v: Seq<Listed>, s: Sorting, fuel: nat)
    requires
        distinct(v),
        sorted_so_far(v, s),
    ensures
        sorted_so_far(v, all_listed(v, s, fuel)),
        all_listed(v, s, fuel).ready.len() == 0 || all_listed(v, s, fuel).out.len() == s.out.len()
            + fuel,
    decreases fuel,
{
    if fuel > 0 && s.ready.len() > 0 {
        lemma_one_listed(v, s);
        lemma_all_listed(v, one_listed(v, s), (fuel - 1) as nat);
    }
}

proof fn lemma_tips(v: Seq<Listed>, n: int)
    requires
        0 <= n <= v.len(),
    ensures
        different(tips(v, n)),
        forall|i: int|
            0 <= i < tips(v, n).len() ==> 0 <= #[trigger] tips(v, n)[i] < n && child_links(
                v,
                v[tips(v, n)[i]].0,
            ) == 0,
        forall|k: int|
            0 <= k < n && child_links(v, (#[trigger] v[k]).0) == 0 ==> tips(v, n).contains(k),
    decreases n,
{
    if n > 0 {
        lemma_tips(v, n - 1);
        let less = tips(v, n - 1);
        let t = tips(v, n);
        if child_links(v, v[n - 1].0) == 0 {
            assert forall|k: int| 0 <= k < n && child_links(v, (#[trigger] v[k]).0)
                == 0 implies t.contains(k) by {
                if k < n - 1 {
                    assert(less.contains(k));
                    let i = choose|i: int| 0 <= i < less.len() && less[i] == k;
                    assert(t[i] == k);
                } else {
                    assert(t[less.len() as int] == k);
                }
            }
        }
    }
}

proof fn lemma_unsorted(v: Seq<Listed>)
    requires
        distinct(v),
    ensures
        sorted_so_far(v, unsorted(v)),
{
    let s = unsorted(v);
    let n = v.len() as int;
    lemma_tips(v, n);
    assert(v.take(n) =~= v);
    assert forall|k: int| 0 <= k < v.len() implies #[trigger] s.open[k] == links_left(
        v,
        s.out,
        v[k].0,
        n,
    ) by {
        lemma_links_at_start(v, v[k].0, n);
    }
    assert forall|k: int| 0 <= k < v.len() && #[trigger] s.open[k] == 0 implies s.ready.contains(k)
        || s.out.contains(k) || k == -1 by {
        assert(child_links(v, v[k].0) == 0);
    }
}

proof fn lemma_times_some(parents: Seq<Seq<char>>, id: Seq<char>)
    ensures
        parents.contains(id) <==> times(parents, id) > 0,
    decreases parents.len(),
{
    if parents.len() > 0 {
        let less = parents.drop_last();
        lemma_times_some(less, id);
        if less.contains(id) {
            let i = choose|i: int| 0 <= i < less.len() && less[i] == id;
            assert(parents[i] == id);
        }
        if parents.last() == id {
            assert(parents[parents.len() - 1] == id);
        }
        if parents.contains(id) && parents.last() != id {
            let i = choose|i: int| 0 <= i < parents.len() && parents[i] == id;
            assert(less[i] == id);
        }
    }
}

/// Commits with different names come each at most once, and none before one that leads to it.
pub proof fn lemma_listing(v: Seq<Listed>)
    requires
        distinct(v),
    ensures
        forall|i: int| 0 <= i < listing(v).len() ==> 0 <= #[trigger] listing(v)[i] < v.len(),
        forall|i: int, j: int|
            0 <= i < j < listing(v).len() ==> #[trigger] listing(v)[i] != #[trigger] listing(v)[j],
        children_first(v, listing(v)),
{
    lemma_unsorted(v);
    lemma_all_listed(v, unsorted(v), v.len());
}

proof fn lemma_none_left(v: Seq<Listed>, out: Seq<int>, rank: spec_fn(Seq<char>) -> int, k: int, bound: int)
    requires
        distinct(v),
        0 <= k < v.len(),
        forall|j: int|
            0 <= j < v.len() && !out.contains(j) ==> links_left(
                v,
                out,
                (#[trigger] v[j]).0,
                v.len() as int,
            ) > 0,
        forall|a: int, id: Seq<char>|
            0 <= a < v.len() && (#[trigger] v[a]).1.parents.contains(id) ==> #[trigger] rank(id) < rank(
                v[a].0,
            ),
        forall|j: int| 0 <= j < v.len() ==> rank((#[trigger] v[j]).0) < bound,
    ensures
        out.contains(k),
    decreases bound - rank(v[k].0),
{
    if !out.contains(k) {
        let a = lemma_some_link(v, out, v[k].0, v.len() as int);
        lemma_times_some(v[a].1.parents, v[k].0);
        assert(rank(v[k].0) < rank(v[a].0));
        lemma_none_left(v, out, rank, a, bound);
    }
}

spec fn top_rank(v: Seq<Listed>, rank: spec_fn(Seq<char>) -> int, n: int) -> int
    decreases n,
{
    if n <= 0 {
        0
    } else {
        let t = top_rank(v, rank, n - 1);
        if rank(v[n - 1].0) >= t {
            rank(v[n - 1].0) + 1
        } else {
            t
        }
    }
}

proof fn lemma_top_rank(v: Seq<Listed>, rank: spec_fn(Seq<char>) -> int, n: int)
    requires
        0 <= n <= v.len(),
    ensures
        forall|j: int| 0 <= j < n ==> rank((#[trigger] v[j]).0) < top_rank(v, rank, n),
    decreases n,
{
    if n > 0 {
        lemma_top_rank(v, rank, n - 1);
    }
}

proof fn lemma_all_there(s: Seq<int>, n: int)
    requires
        0 <= n,
        s.len() == n,
        different(s),
        forall|i: int| 0 <= i < s.len() ==> 0 <= #[trigger] s[i] < n,
    ensures
        forall|k: int| 0 <= k < n ==> s.contains(k),
{
    let all = Set::new(|k: int| 0 <= k < n);
    vstd::set_lib::lemma_int_range(0, n);
    assert(all =~= vstd::set_lib::set_int_range(0, n));
    s.unique_seq_to_set();
    assert(s.no_duplicates());
    let have = s.to_set();
    assert(have.subset_of(all)) by {
        assert forall|k: int| have.contains(k) implies all.contains(k) by {
            let i = choose|i: int| 0 <= i < s.len() && s[i] == k;
            assert(s[i] == k);
        }
    }
    vstd::set_lib::lemma_subset_equality(have, all);
    assert forall|k: int| 0 <= k < n implies s.contains(k) by {
        assert(all.contains(k));
        assert(have.contains(k));
    }
}

/// Where no commit leads back to itself, every commit of a list is listed. `rank` bears witness: it
/// is lower for a parent than for its child.
pub proof fn lemma_listing_complete(v: Seq<Listed>, rank: spec_fn(Seq<char>) -> int)
    requires
        distinct(v),
        forall|a: int, id: Seq<char>|
            0 <= a < v.len() && (#[trigger] v[a]).1.parents.contains(id) ==> #[trigger] rank(id) < rank(
                v[a].0,
            ),
    ensures
        forall|k: int| 0 <= k < v.len() ==> #[trigger] listing(v).contains(k),
{
    lemma_unsorted(v);
    lemma_all_listed(v, unsorted(v), v.len());
    let s = all_listed(v, unsorted(v), v.len());
    let n = v.len() as int;
    if s.out.len() == n {
        lemma_all_there(s.out, n);
    } else {
        assert(s.ready.len() == 0);
        assert forall|k: int| 0 <= k < v.len() implies #[trigger] s.out.contains(k) by {
            if !s.out.contains(k) {
                assert forall|j: int| 0 <= j < v.len() && !s.out.contains(j) implies links_left(
                    v,
                    s.out,
                    (#[trigger] v[j]).0,
                    n,
                ) > 0 by {
                    assert(s.open[j] == links_left(v, s.out, v[j].0, n));
                    if s.open[j] == 0 {
                        assert(s.ready.contains(j) || s.out.contains(j));
                    }
                }
                lemma_top_rank(v, rank, n);
                lemma_none_left(v, s.out, rank, k, top_rank(v, rank, n));
            }
        }
    }
}

proof fn lemma_found_distinct(
    m: Machine,
    root: Seq<char>,
    queue: Seq<Seq<char>>,
    found: Seq<Listed>,
    limit: nat,
)
    requires
        distinct(found),
    ensures
        distinct(found_from(m, root, queue, found, limit)),
    decreases limit - found.len(), queue.len(),
{
    if queue.len() > 0 {
        let id = queue[0];
        let rest = queue.subrange(1, queue.len() as int);
        if found.len() >= limit || place_of(found, id) is Some {
            lemma_found_distinct(m, root, rest, found, limit);
        } else {
            match commit_of(m, root, id) {
                Some(n) => {
                    lemma_place_named(found, id);
                    let more = found.push((id, n));
                    assert forall|i: int, j: int| 0 <= i < j < more.len() implies #[trigger] more[i].0
                        != #[trigger] more[j].0 by {
                        assert(more[i] == found[i]);
                        if j < found.len() {
                            assert(more[j] == found[j]);
                        }
                    }
                    lemma_found_distinct(m, root, rest + n.parents, more, limit);
                },
                None => lemma_found_distinct(m, root, rest, found, limit),
            }
        }
    }
}

/// History is listed with every commit at most once, and none before one that leads to it.
pub proof fn lemma_reachable_order(m: Machine, root: Seq<char>, starts: Seq<Seq<char>>, limit: nat)
    ensures
        forall|i: int, j: int|
            0 <= i < j < reachable(m, root, starts, limit).len() ==> (#[trigger] reachable(
                m,
                root,
                starts,
                limit,
            )[i]).0 != (#[trigger] reachable(m, root, starts, limit)[j]).0,
        forall|i: int, j: int|
            0 <= i <= j < reachable(m, root, starts, limit).len() ==> !(#[trigger] reachable(
                m,
                root,
                starts,
                limit,
            )[j]).1.parents.contains((#[trigger] reachable(m, root, starts, limit)[i]).0),
{
    let v = found_from(m, root, starts, seq![], limit);
    lemma_found_distinct(m, root, starts, seq![], limit);
    lemma_listing(v);
    let out = listing(v);
    let r = reachable(m, root, starts, limit);
    assert forall|i: int, j: int| 0 <= i < j < r.len() implies (#[trigger] r[i]).0 != (
    #[trigger] r[j]).0 by {
        assert(r[i] == v[out[i]] && r[j] == v[out[j]]);
        assert(out[i] != out[j]);
        if out[i] < out[j] {
            assert(v[out[i]].0 != v[out[j]].0);
        } else {
            assert(v[out[j]].0 != v[out[i]].0);
        }
    }
    assert forall|i: int, j: int| 0 <= i <= j < r.len() implies !(#[trigger] r[j]).1.parents.contains(
        (#[trigger] r[i]).0,
    ) by {
        assert(r[i] == v[out[i]] && r[j] == v[out[j]]);
        let a = out[j];
        lemma_times_some(v[a].1.parents, v[out[i]].0);
        if times(v[a].1.parents, v[out[i]].0) > 0 {
            assert(stands_before(out, i, a));
            let k = choose|k: int| 0 <= k < i && #[trigger] out[k] == a;
            assert(out[k] != out[j]);
        }
    }
}

// ---------------------------------------------------------------------------
// What is listed
// ---------------------------------------------------------------------------

/// Whether parent links lead from one of `starts` to a commit that can be read.
pub open spec fn in_history(m: Machine, root: Seq<char>, starts: Seq<Seq<char>>, id: Seq<char>) -> bool {
    linked(m, root, starts, id) && commit_of(m, root, id) is Some
}

/// Whether the history of `starts` has at most `limit` commits: no list of more of them is without
/// repetition.
pub open spec fn history_fits(m: Machine, root: Seq<char>, starts: Seq<Seq<char>>, limit: nat) -> bool {
    forall|v: Seq<Seq<char>>| #[trigger]
        v.no_duplicates() && (forall|i: int| 0 <= i < v.len() ==> in_history(m, root, starts, #[trigger] v[i]))
            ==> v.len() <= limit
}

proof fn lemma_found_inside(
    m: Machine,
    root: Seq<char>,
    queue: Seq<Seq<char>>,
    found: Seq<Listed>,
    limit: nat,
    p: spec_fn(Seq<char>) -> bool,
)
    requires
        handed_down(m, root, p),
        forall|i: int| 0 <= i < queue.len() ==> p(#[trigger] queue[i]),
        forall|i: int|
            0 <= i < found.len() ==> p((#[trigger] found[i]).0) && commit_of(m, root, found[i].0) == Some(
                found[i].1,
            ),
    ensures
        ({
            let v = found_from(m, root, queue, found, limit);
            forall|i: int|
                0 <= i < v.len() ==> p((#[trigger] v[i]).0) && commit_of(m, root, v[i].0) == Some(v[i].1)
        }),
    decreases limit - found.len(), queue.len(),
{
    if queue.len() > 0 {
        let id = queue[0];
        let rest = queue.subrange(1, queue.len() as int);
        assert(p(queue[0]));
        assert forall|i: int| 0 <= i < rest.len() implies p(#[trigger] rest[i]) by {
            assert(rest[i] == queue[i + 1]);
        }
        if found.len() >= limit || place_of(found, id) is Some {
            lemma_found_inside(m, root, rest, found, limit, p);
        } else {
            match commit_of(m, root, id) {
                Some(n) => {
                    let next = rest + n.parents;
                    let more = found.push((id, n));
                    assert forall|i: int| 0 <= i < next.len() implies p(#[trigger] next[i]) by {
                        if i < rest.len() {
                            assert(next[i] == rest[i]);
                        } else {
                            assert(n.parents[i - rest.len()] == next[i]);
                            assert(leads_to(m, root, id, next[i]));
                        }
                    }
                    assert forall|i: int| 0 <= i < more.len() implies p((#[trigger] more[i]).0) && commit_of(
                        m,
                        root,
                        more[i].0,
                    ) == Some(more[i].1) by {
                        if i < found.len() {
                            assert(more[i] == found[i]);
                        }
                    }
                    lemma_found_inside(m, root, next, more, limit, p);
                },
                None => lemma_found_inside(m, root, rest, found, limit, p),
            }
        }
    }
}

/// Whether what the commits of a list lead to is in the list or waits in the queue, as far as it can
/// be read.
spec fn awaited(m: Machine, root: Seq<char>, queue: Seq<Seq<char>>, found: Seq<Listed>) -> bool {
    forall|id: Seq<char>, parent: Seq<char>|
        place_of(found, id) is Some && #[trigger] leads_to(m, root, id, parent) && commit_of(m, root, parent)
            is Some ==> place_of(found, parent) is Some || queue.contains(parent)
}

proof fn lemma_place_pushed(found: Seq<Listed>, e: Listed, id: Seq<char>)
    ensures
        place_of(found.push(e), id) is Some <==> (place_of(found, id) is Some || e.0 == id),
{
    assert(found.push(e).drop_last() =~= found);
}

proof fn lemma_found_complete(
    m: Machine,
    root: Seq<char>,
    queue: Seq<Seq<char>>,
    found: Seq<Listed>,
    limit: nat,
)
    requires
        awaited(m, root, queue, found),
    ensures
        ({
            let v = found_from(m, root, queue, found, limit);
            &&& v.len() >= found.len()
            &&& forall|id: Seq<char>| #[trigger] place_of(found, id) is Some ==> place_of(v, id) is Some
            &&& v.len() >= limit || {
                &&& forall|i: int|
                    0 <= i < queue.len() && commit_of(m, root, #[trigger] queue[i]) is Some ==> place_of(
                        v,
                        queue[i],
                    ) is Some
                &&& awaited(m, root, seq![], v)
            }
        }),
    decreases limit - found.len(), queue.len(),
{
    let v = found_from(m, root, queue, found, limit);
    if queue.len() == 0 {
        assert(queue =~= seq![]);
    } else {
        let id = queue[0];
        let rest = queue.subrange(1, queue.len() as int);
        if found.len() >= limit {
            lemma_found_full(m, root, queue, found, limit);
        } else if place_of(found, id) is Some || commit_of(m, root, id) is None {
            assert(awaited(m, root, rest, found)) by {
                assert forall|a: Seq<char>, parent: Seq<char>|
                    place_of(found, a) is Some && #[trigger] leads_to(m, root, a, parent) && commit_of(
                        m,
                        root,
                        parent,
                    ) is Some implies place_of(found, parent) is Some || rest.contains(parent) by {
                    if queue.contains(parent) && parent != id {
                        let i = choose|i: int| 0 <= i < queue.len() && queue[i] == parent;
                        assert(rest[i - 1] == parent);
                    }
                }
            }
            lemma_found_complete(m, root, rest, found, limit);
            assert forall|i: int| 0 <= i < queue.len() && commit_of(m, root, #[trigger] queue[i]) is Some
                && v.len() < limit implies place_of(v, queue[i]) is Some by {
                if i > 0 {
                    assert(rest[i - 1] == queue[i]);
                }
            }
        } else {
            let n = commit_of(m, root, id)->0;
            let next = rest + n.parents;
            let more = found.push((id, n));
            assert(awaited(m, root, next, more)) by {
                assert forall|a: Seq<char>, parent: Seq<char>|
                    place_of(more, a) is Some && #[trigger] leads_to(m, root, a, parent) && commit_of(
                        m,
                        root,
                        parent,
                    ) is Some implies place_of(more, parent) is Some || next.contains(parent) by {
                    lemma_place_pushed(found, (id, n), a);
                    lemma_place_pushed(found, (id, n), parent);
                    if a == id {
                        let i = choose|i: int| 0 <= i < n.parents.len() && n.parents[i] == parent;
                        assert(next[rest.len() + i] == parent);
                    } else if queue.contains(parent) && parent != id {
                        let i = choose|i: int| 0 <= i < queue.len() && queue[i] == parent;
                        assert(rest[i - 1] == parent);
                        assert(next[i - 1] == parent);
                    }
                }
            }
            lemma_found_complete(m, root, next, more, limit);
            assert forall|x: Seq<char>| #[trigger] place_of(found, x) is Some implies place_of(v, x) is Some by {
                lemma_place_pushed(found, (id, n), x);
                assert(place_of(more, x) is Some);
            }
            assert forall|i: int| 0 <= i < queue.len() && commit_of(m, root, #[trigger] queue[i]) is Some
                && v.len() < limit implies place_of(v, queue[i]) is Some by {
                if i > 0 {
                    assert(next[i - 1] == queue[i]);
                } else {
                    lemma_place_pushed(found, (id, n), id);
                    assert(place_of(more, id) is Some);
                }
            }
        }
    }
}

proof fn lemma_found_full(m: Machine, root: Seq<char>, queue: Seq<Seq<char>>, found: Seq<Listed>, limit: nat)
    requires
        found.len() >= limit,
    ensures
        found_from(m, root, queue, found, limit) == found,
    decreases queue.len(),
{
    if queue.len() > 0 {
        lemma_found_full(m, root, queue.subrange(1, queue.len() as int), found, limit);
    }
}

/// Every commit that is listed is one that parent links lead to from the starts, with the record that
/// it has. Where the history has no more commits than the limit, every one of them is listed. The
/// latter holds where no commit leads back to itself; `rank` bears witness of that: it is lower for a
/// parent than for its child.
pub proof fn lemma_history_listed(
    m: Machine,
    root: Seq<char>,
    starts: Seq<Seq<char>>,
    limit: nat,
    rank: spec_fn(Seq<char>) -> int,
)
    ensures
        forall|i: int|
            0 <= i < reachable(m, root, starts, limit).len() ==> linked(
                m,
                root,
                starts,
                (#[trigger] reachable(m, root, starts, limit)[i]).0,
            ) && commit_of(m, root, reachable(m, root, starts, limit)[i].0) == Some(
                reachable(m, root, starts, limit)[i].1,
            ),
        (forall|id: Seq<char>, parent: Seq<char>| #[trigger]
            leads_to(m, root, id, parent) ==> rank(parent) < rank(id)) && history_fits(m, root, starts, limit)
            ==> forall|id: Seq<char>| #[trigger]
            in_history(m, root, starts, id) ==> reachable(m, root, starts, limit).contains(
                (id, commit_of(m, root, id)->0),
            ),
{
    let none: Seq<Listed> = seq![];
    let v = found_from(m, root, starts, none, limit);
    let out = listing(v);
    let r = reachable(m, root, starts, limit);
    let p = |id: Seq<char>| linked(m, root, starts, id);
    lemma_linked(m, root, starts);
    lemma_found_inside(m, root, starts, none, limit, p);
    lemma_found_distinct(m, root, starts, none, limit);
    lemma_listing(v);
    assert forall|i: int| 0 <= i < r.len() implies linked(m, root, starts, (#[trigger] r[i]).0) && commit_of(
        m,
        root,
        r[i].0,
    ) == Some(r[i].1) by {
        assert(r[i] == v[out[i]]);
        assert(p(v[out[i]].0));
    }
    if (forall|id: Seq<char>, parent: Seq<char>| #[trigger]
        leads_to(m, root, id, parent) ==> rank(parent) < rank(id)) && history_fits(m, root, starts, limit) {
        assert forall|a: int, id: Seq<char>|
            0 <= a < v.len() && (#[trigger] v[a]).1.parents.contains(id) implies #[trigger] rank(id) < rank(
            v[a].0,
        ) by {
            assert(leads_to(m, root, v[a].0, id));
        }
        lemma_listing_complete(v, rank);
        assert forall|id: Seq<char>| #[trigger] in_history(m, root, starts, id) implies r.contains(
            (id, commit_of(m, root, id)->0),
        ) by {
            lemma_all_found(m, root, starts, limit, id);
            lemma_place_named(v, id);
            let k = place_of(v, id)->0;
            assert(v[k].0 == id);
            assert(out.contains(k));
            let i = choose|i: int| 0 <= i < out.len() && out[i] == k;
            assert(r[i] == v[k]);
        }
    }
}

proof fn lemma_all_found(m: Machine, root: Seq<char>, starts: Seq<Seq<char>>, limit: nat, id: Seq<char>)
    requires
        history_fits(m, root, starts, limit),
        in_history(m, root, starts, id),
    ensures
        place_of(found_from(m, root, starts, seq![], limit), id) is Some,
{
    let none: Seq<Listed> = seq![];
    let v = found_from(m, root, starts, none, limit);
    let p = |x: Seq<char>| linked(m, root, starts, x);
    assert(awaited(m, root, starts, none));
    lemma_found_complete(m, root, starts, none, limit);
    if v.len() < limit {
        let there = |x: Seq<char>| commit_of(m, root, x) is Some ==> place_of(v, x) is Some;
        assert(handed_down(m, root, there)) by {
            assert forall|a: Seq<char>, parent: Seq<char>|
                there(a) && #[trigger] leads_to(m, root, a, parent) implies there(parent) by {
                assert(!seq![].contains(parent));
            }
        }
        lemma_linked_only(m, root, starts, there, id);
    } else if place_of(v, id) is None {
        lemma_linked(m, root, starts);
        lemma_found_inside(m, root, starts, none, limit, p);
        lemma_found_distinct(m, root, starts, none, limit);
        let ids = v.map_values(|e: Listed| e.0).push(id);
        assert forall|i: int| 0 <= i < ids.len() implies in_history(m, root, starts, #[trigger] ids[i]) by {
            if i < v.len() {
                assert(ids[i] == v[i].0);
                assert(p(v[i].0));
            }
        }
        assert(ids.no_duplicates()) by {
            assert forall|a: int, b: int| 0 <= a < ids.len() && 0 <= b < ids.len() && a != b implies ids[a]
                != ids[b] by {
                let (low, high) = if a < b {
                    (a, b)
                } else {
                    (b, a)
                };
                assert(ids[low] == v[low].0);
                if high < v.len() {
                    assert(ids[high] == v[high].0);
                    assert(v[low].0 != v[high].0);
                } else if ids[low] == id {
                    lemma_place(v, low);
                }
            }
        }
    }
}

} // verus!
