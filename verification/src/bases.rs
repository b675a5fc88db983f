//! What a common ancestor is: the laws of ancestors and of the best one that two commits share.

use vstd::prelude::*;

use crate::history::{
    ancestry, best_ancestors, held_test, lemma_bind_length, missing_test, nearest, nearest_from, parents_among,
    reached, shared_ancestors, shared_base, within, Names, MAX_ANCESTORS,
};
use crate::names::{lemma_kept_holds, lemma_kept_passes, lemma_with_new, with_names, with_new};
use crate::order::{bind, lemma_lookup_bind, lemma_no_more_than_keys, lookup};
use crate::repo::{commit_file_at, commit_of};
use crate::storage::lemma_git_files_differ;
use crate::system::Machine;

verus! {

/// Whether the commit `id` leads to `parent`.
pub open spec fn leads_to(m: Machine, root: Seq<char>, id: Seq<char>, parent: Seq<char>) -> bool {
    match commit_of(m, root, id) {
        Some(n) => n.parents.contains(parent),
        None => false,
    }
}

/// Whether what holds of a commit holds of what it leads to.
pub open spec fn handed_down(m: Machine, root: Seq<char>, p: spec_fn(Seq<char>) -> bool) -> bool {
    forall|id: Seq<char>, parent: Seq<char>| p(id) && #[trigger] leads_to(m, root, id, parent) ==> p(parent)
}

/// Whether each commit of a path leads to the next one.
pub open spec fn linked_path(m: Machine, root: Seq<char>, path: Seq<Seq<char>>) -> bool {
    path.len() > 0 && forall|i: int, j: int|
        0 <= i && j == i + 1 && j < path.len() ==> leads_to(m, root, #[trigger] path[i], #[trigger] path[j])
}

/// Whether parent links lead from one of `starts` to a commit, in any number of steps.
pub open spec fn linked(m: Machine, root: Seq<char>, starts: Seq<Seq<char>>, id: Seq<char>) -> bool {
    exists|path: Seq<Seq<char>>| #[trigger]
        linked_path(m, root, path) && starts.contains(path[0]) && path.last() == id
}

/// What parent links lead to: the starts themselves, and whatever such a commit leads to.
pub proof fn lemma_linked(m: Machine, root: Seq<char>, starts: Seq<Seq<char>>)
    ensures
        forall|i: int| 0 <= i < starts.len() ==> linked(m, root, starts, #[trigger] starts[i]),
        handed_down(m, root, |id: Seq<char>| linked(m, root, starts, id)),
{
    assert forall|i: int| 0 <= i < starts.len() implies linked(m, root, starts, #[trigger] starts[i]) by {
        assert(linked_path(m, root, seq![starts[i]]));
    }
    assert forall|id: Seq<char>, parent: Seq<char>|
        linked(m, root, starts, id) && #[trigger] leads_to(m, root, id, parent) implies linked(
        m,
        root,
        starts,
        parent,
    ) by {
        let path = choose|path: Seq<Seq<char>>| #[trigger]
            linked_path(m, root, path) && starts.contains(path[0]) && path.last() == id;
        let more = path.push(parent);
        assert(linked_path(m, root, more)) by {
            assert forall|i: int, j: int| 0 <= i && j == i + 1 && j < more.len() implies leads_to(
                m,
                root,
                #[trigger] more[i],
                #[trigger] more[j],
            ) by {
                assert(more[i] == path[i]);
                if j < path.len() {
                    assert(more[j] == path[j]);
                }
            }
        }
        assert(more[0] == path[0] && more.last() == parent);
    }
}

/// Parent links lead only to what holds of the starts and is handed down.
pub proof fn lemma_linked_only(
    m: Machine,
    root: Seq<char>,
    starts: Seq<Seq<char>>,
    p: spec_fn(Seq<char>) -> bool,
    id: Seq<char>,
)
    requires
        forall|i: int| 0 <= i < starts.len() ==> p(#[trigger] starts[i]),
        handed_down(m, root, p),
        linked(m, root, starts, id),
    ensures
        p(id),
{
    let path = choose|path: Seq<Seq<char>>| #[trigger]
        linked_path(m, root, path) && starts.contains(path[0]) && path.last() == id;
    let i = choose|i: int| 0 <= i < starts.len() && starts[i] == path[0];
    assert(p(starts[i]));
    lemma_along_path(m, root, path, p, path.len() - 1);
}

proof fn lemma_along_path(
    m: Machine,
    root: Seq<char>,
    path: Seq<Seq<char>>,
    p: spec_fn(Seq<char>) -> bool,
    k: int,
)
    requires
        handed_down(m, root, p),
        linked_path(m, root, path),
        p(path[0]),
        0 <= k < path.len(),
    ensures
        p(path[k]),
    decreases k,
{
    if k > 0 {
        lemma_along_path(m, root, path, p, k - 1);
        assert(leads_to(m, root, path[k - 1], path[k]));
    }
}

// ---------------------------------------------------------------------------
// Ancestors
// ---------------------------------------------------------------------------

proof fn lemma_reached_keeps(m: Machine, root: Seq<char>, stack: Seq<Seq<char>>, seen: Names)
    ensures
        reached(m, root, stack, seen).len() >= seen.len(),
        forall|x: Seq<char>| #[trigger] within(seen, x) ==> within(reached(m, root, stack, seen), x),
    decreases MAX_ANCESTORS - seen.len(), stack.len(),
{
    if stack.len() > 0 {
        let id = stack.last();
        let rest = stack.drop_last();
        if seen.len() >= MAX_ANCESTORS || within(seen, id) {
            lemma_reached_keeps(m, root, rest, seen);
        } else {
            let more = bind(seen, id, ());
            lemma_bind_length(seen, id, ());
            match commit_of(m, root, id) {
                Some(n) => lemma_reached_keeps(m, root, rest + n.parents, more),
                None => lemma_reached_keeps(m, root, rest, more),
            }
            assert forall|x: Seq<char>| #[trigger] within(seen, x) implies within(
                reached(m, root, stack, seen),
                x,
            ) by {
                lemma_lookup_bind(seen, id, (), x);
                assert(within(more, x));
            }
        }
    }
}

proof fn lemma_reached_inside(
    m: Machine,
    root: Seq<char>,
    stack: Seq<Seq<char>>,
    seen: Names,
    p: spec_fn(Seq<char>) -> bool,
    x: Seq<char>,
)
    requires
        handed_down(m, root, p),
        forall|i: int| 0 <= i < stack.len() ==> p(#[trigger] stack[i]),
        forall|y: Seq<char>| #[trigger] within(seen, y) ==> p(y),
        within(reached(m, root, stack, seen), x),
    ensures
        p(x),
    decreases MAX_ANCESTORS - seen.len(), stack.len(),
{
    if stack.len() == 0 {
        assert(within(seen, x));
    } else {
        let id = stack.last();
        let rest = stack.drop_last();
        assert(p(stack[stack.len() - 1]));
        assert forall|i: int| 0 <= i < rest.len() implies p(#[trigger] rest[i]) by {
            assert(rest[i] == stack[i]);
        }
        if seen.len() >= MAX_ANCESTORS || within(seen, id) {
            lemma_reached_inside(m, root, rest, seen, p, x);
        } else {
            let more = bind(seen, id, ());
            lemma_bind_length(seen, id, ());
            assert forall|y: Seq<char>| #[trigger] within(more, y) implies p(y) by {
                lemma_lookup_bind(seen, id, (), y);
                if y != id {
                    assert(within(seen, y));
                }
            }
            match commit_of(m, root, id) {
                Some(n) => {
                    let next = rest + n.parents;
                    assert forall|i: int| 0 <= i < next.len() implies p(#[trigger] next[i]) by {
                        if i < rest.len() {
                            assert(next[i] == rest[i]);
                        } else {
                            assert(n.parents[i - rest.len()] == next[i]);
                            assert(leads_to(m, root, id, next[i]));
                        }
                    }
                    lemma_reached_inside(m, root, next, more, p, x);
                },
                None => lemma_reached_inside(m, root, rest, more, p, x),
            }
        }
    }
}

/// Whether what the commits of a set lead to is in the set or waits on the stack.
spec fn in_reach(m: Machine, root: Seq<char>, stack: Seq<Seq<char>>, seen: Names) -> bool {
    forall|id: Seq<char>, parent: Seq<char>|
        within(seen, id) && #[trigger] leads_to(m, root, id, parent) ==> within(seen, parent)
            || stack.contains(parent)
}

proof fn lemma_reached_complete(m: Machine, root: Seq<char>, stack: Seq<Seq<char>>, seen: Names)
    requires
        in_reach(m, root, stack, seen),
        reached(m, root, stack, seen).len() < MAX_ANCESTORS,
    ensures
        forall|i: int| 0 <= i < stack.len() ==> within(reached(m, root, stack, seen), #[trigger] stack[i]),
        forall|id: Seq<char>, parent: Seq<char>|
            within(reached(m, root, stack, seen), id) && #[trigger] leads_to(m, root, id, parent) ==> within(
                reached(m, root, stack, seen),
                parent,
            ),
    decreases MAX_ANCESTORS - seen.len(), stack.len(),
{
    lemma_reached_keeps(m, root, stack, seen);
    let all = reached(m, root, stack, seen);
    if stack.len() == 0 {
    } else {
        let id = stack.last();
        let rest = stack.drop_last();
        if within(seen, id) {
            assert(in_reach(m, root, rest, seen)) by {
                assert forall|a: Seq<char>, parent: Seq<char>|
                    within(seen, a) && #[trigger] leads_to(m, root, a, parent) implies within(seen, parent)
                    || rest.contains(parent) by {
                    if stack.contains(parent) && parent != id {
                        let i = choose|i: int| 0 <= i < stack.len() && stack[i] == parent;
                        assert(rest[i] == parent);
                    }
                }
            }
            lemma_reached_complete(m, root, rest, seen);
            assert forall|i: int| 0 <= i < stack.len() implies within(all, #[trigger] stack[i]) by {
                if i < rest.len() {
                    assert(rest[i] == stack[i]);
                } else {
                    assert(within(seen, stack[i]));
                }
            }
        } else {
            let more = bind(seen, id, ());
            lemma_bind_length(seen, id, ());
            let next = match commit_of(m, root, id) {
                Some(n) => rest + n.parents,
                None => rest,
            };
            lemma_lookup_bind(seen, id, (), id);
            assert(in_reach(m, root, next, more)) by {
                assert forall|a: Seq<char>, parent: Seq<char>|
                    within(more, a) && #[trigger] leads_to(m, root, a, parent) implies within(more, parent)
                    || next.contains(parent) by {
                    lemma_lookup_bind(seen, id, (), a);
                    lemma_lookup_bind(seen, id, (), parent);
                    if a == id {
                        let n = commit_of(m, root, id)->0;
                        let i = choose|i: int| 0 <= i < n.parents.len() && n.parents[i] == parent;
                        assert(next[rest.len() + i] == parent);
                    } else {
                        assert(within(seen, a));
                        if stack.contains(parent) && parent != id {
                            let i = choose|i: int| 0 <= i < stack.len() && stack[i] == parent;
                            assert(rest[i] == parent);
                            assert(next[i] == parent);
                        }
                    }
                }
            }
            lemma_reached_complete(m, root, next, more);
            lemma_reached_keeps(m, root, next, more);
            assert forall|i: int| 0 <= i < stack.len() implies within(all, #[trigger] stack[i]) by {
                if i < rest.len() {
                    assert(next[i] == stack[i]);
                } else {
                    assert(within(more, stack[i]));
                }
            }
        }
    }
}

/// Whether a name is `start` or something in a set leads to it.
spec fn entered(m: Machine, root: Seq<char>, seen: Names, start: Seq<char>, x: Seq<char>) -> bool {
    x == start || exists|e: Seq<char>| within(seen, e) && #[trigger] leads_to(m, root, e, x)
}

proof fn lemma_entered_stays(
    m: Machine,
    root: Seq<char>,
    seen: Names,
    id: Seq<char>,
    start: Seq<char>,
    x: Seq<char>,
)
    requires
        entered(m, root, seen, start, x),
    ensures
        entered(m, root, bind(seen, id, ()), start, x),
{
    if x != start {
        let e = choose|e: Seq<char>| within(seen, e) && #[trigger] leads_to(m, root, e, x);
        lemma_lookup_bind(seen, id, (), e);
        assert(within(bind(seen, id, ()), e) && leads_to(m, root, e, x));
    }
}

proof fn lemma_reached_entered(
    m: Machine,
    root: Seq<char>,
    stack: Seq<Seq<char>>,
    seen: Names,
    start: Seq<char>,
    x: Seq<char>,
)
    requires
        forall|i: int| 0 <= i < stack.len() ==> entered(m, root, seen, start, #[trigger] stack[i]),
        forall|y: Seq<char>| #[trigger] within(seen, y) ==> entered(m, root, seen, start, y),
        within(reached(m, root, stack, seen), x),
    ensures
        entered(m, root, reached(m, root, stack, seen), start, x),
    decreases MAX_ANCESTORS - seen.len(), stack.len(),
{
    if stack.len() == 0 {
        assert(within(seen, x));
    } else {
        let id = stack.last();
        let rest = stack.drop_last();
        assert forall|i: int| 0 <= i < rest.len() implies entered(m, root, seen, start, #[trigger] rest[i]) by {
            assert(rest[i] == stack[i]);
        }
        if seen.len() >= MAX_ANCESTORS || within(seen, id) {
            lemma_reached_entered(m, root, rest, seen, start, x);
        } else {
            let more = bind(seen, id, ());
            lemma_bind_length(seen, id, ());
            lemma_lookup_bind(seen, id, (), id);
            assert(entered(m, root, seen, start, stack[stack.len() - 1]));
            assert forall|y: Seq<char>| #[trigger] within(more, y) implies entered(m, root, more, start, y) by {
                lemma_lookup_bind(seen, id, (), y);
                if y != id {
                    assert(within(seen, y));
                }
                lemma_entered_stays(m, root, seen, id, start, y);
            }
            let next = match commit_of(m, root, id) {
                Some(n) => rest + n.parents,
                None => rest,
            };
            assert forall|i: int| 0 <= i < next.len() implies entered(
                m,
                root,
                more,
                start,
                #[trigger] next[i],
            ) by {
                if i < rest.len() {
                    assert(next[i] == rest[i]);
                    lemma_entered_stays(m, root, seen, id, start, rest[i]);
                } else {
                    let n = commit_of(m, root, id)->0;
                    assert(n.parents[i - rest.len()] == next[i]);
                    assert(within(more, id) && leads_to(m, root, id, next[i]));
                }
            }
            lemma_reached_entered(m, root, next, more, start, x);
        }
    }
}

/// The ancestors of a commit are the commit itself and what its ancestors lead to. They stay among
/// whatever holds the commit and is handed down. Where there are few enough for all to be
/// collected, nothing that they lead to is missing.
pub proof fn lemma_ancestry(m: Machine, root: Seq<char>, id: Seq<char>, p: spec_fn(Seq<char>) -> bool, x: Seq<char>)
    ensures
        within(ancestry(m, root, id), x) && x != id ==> exists|e: Seq<char>|
            within(ancestry(m, root, id), e) && #[trigger] leads_to(m, root, e, x),
        within(ancestry(m, root, id), x) && p(id) && handed_down(m, root, p) ==> p(x),
        ancestry(m, root, id).len() < MAX_ANCESTORS ==> within(ancestry(m, root, id), id) && handed_down(
            m,
            root,
            held_test(ancestry(m, root, id)),
        ),
{
    let stack = seq![id];
    let none: Names = seq![];
    let all = ancestry(m, root, id);
    if within(all, x) {
        lemma_reached_entered(m, root, stack, none, id, x);
        if p(id) && handed_down(m, root, p) {
            lemma_reached_inside(m, root, stack, none, p, x);
        }
    }
    if all.len() < MAX_ANCESTORS {
        assert(in_reach(m, root, stack, none));
        lemma_reached_complete(m, root, stack, none);
        assert(within(all, stack[0]));
        assert(handed_down(m, root, held_test(all)));
    }
}

/// The ancestors of a commit are what parent links lead to from it; all of it, where there are few
/// enough for all to be collected.
pub proof fn lemma_ancestry_linked(m: Machine, root: Seq<char>, id: Seq<char>, x: Seq<char>)
    ensures
        within(ancestry(m, root, id), x) ==> linked(m, root, seq![id], x),
        ancestry(m, root, id).len() < MAX_ANCESTORS && linked(m, root, seq![id], x) ==> within(
            ancestry(m, root, id),
            x,
        ),
{
    let starts = seq![id];
    let p = |y: Seq<char>| linked(m, root, starts, y);
    lemma_linked(m, root, starts);
    assert(linked(m, root, starts, starts[0]));
    lemma_ancestry(m, root, id, p, x);
    if ancestry(m, root, id).len() < MAX_ANCESTORS && linked(m, root, starts, x) {
        lemma_linked_only(m, root, starts, held_test(ancestry(m, root, id)), x);
    }
}

// ---------------------------------------------------------------------------
// The nearest first
// ---------------------------------------------------------------------------

/// The files of those ids that are commits.
spec fn loaded(m: Machine, root: Seq<char>, v: Seq<Seq<char>>) -> Seq<Seq<char>>
    decreases v.len(),
{
    if v.len() == 0 {
        seq![]
    } else {
        let head = loaded(m, root, v.drop_last());
        if commit_of(m, root, v.last()) is Some {
            head.push(commit_file_at(root, v.last()))
        } else {
            head
        }
    }
}

proof fn lemma_files_differ(root: Seq<char>, a: Seq<char>, b: Seq<char>)
    requires
        a != b,
    ensures
        commit_file_at(root, a) != commit_file_at(root, b),
{
    let x = "commits/"@ + a + ".commit"@;
    let y = "commits/"@ + b + ".commit"@;
    if x == y {
        let front = "commits/"@.len() as int;
        let back = ".commit"@.len() as int;
        assert(x.subrange(front, x.len() - back) =~= a);
        assert(y.subrange(front, y.len() - back) =~= b);
    }
    lemma_git_files_differ(root, x, y);
}

/// Whether a file is that of an id in a list that is a commit.
spec fn backed(m: Machine, root: Seq<char>, v: Seq<Seq<char>>, file: Seq<char>) -> bool {
    exists|j: int|
        0 <= j < v.len() && file == commit_file_at(root, #[trigger] v[j]) && commit_of(m, root, v[j]) is Some
}

proof fn lemma_loaded(m: Machine, root: Seq<char>, v: Seq<Seq<char>>)
    requires
        v.no_duplicates(),
    ensures
        loaded(m, root, v).no_duplicates(),
        forall|i: int| 0 <= i < loaded(m, root, v).len() ==> backed(m, root, v, #[trigger] loaded(m, root, v)[i]),
    decreases v.len(),
{
    if v.len() > 0 {
        let less = v.drop_last();
        let head = loaded(m, root, less);
        let all = loaded(m, root, v);
        lemma_loaded(m, root, less);
        assert forall|i: int| 0 <= i < all.len() implies backed(m, root, v, #[trigger] all[i]) by {
            if i < head.len() {
                assert(all[i] == head[i]);
                let j = choose|j: int|
                    0 <= j < less.len() && head[i] == commit_file_at(root, #[trigger] less[j]) && commit_of(
                        m,
                        root,
                        less[j],
                    ) is Some;
                assert(less[j] == v[j]);
            } else {
                assert(v[v.len() - 1] == v.last());
            }
        }
        if commit_of(m, root, v.last()) is Some {
            assert forall|a: int, b: int| 0 <= a < all.len() && 0 <= b < all.len() && a != b implies all[a]
                != all[b] by {
                let (low, high) = if a < b {
                    (a, b)
                } else {
                    (b, a)
                };
                assert(all[low] == head[low]);
                if high < head.len() {
                    assert(all[high] == head[high]);
                } else {
                    assert(backed(m, root, less, head[low]));
                    let j = choose|j: int|
                        0 <= j < less.len() && head[low] == commit_file_at(root, #[trigger] less[j]) && commit_of(
                            m,
                            root,
                            less[j],
                        ) is Some;
                    assert(less[j] == v[j]);
                    assert(v[j] != v[v.len() - 1]);
                    lemma_files_differ(root, v[j], v.last());
                }
            }
        }
    }
}

proof fn lemma_no_more_than_files(m: Machine, root: Seq<char>, v: Seq<Seq<char>>)
    requires
        v.no_duplicates(),
    ensures
        loaded(m, root, v).len() <= m.files.len(),
{
    let all = loaded(m, root, v);
    lemma_loaded(m, root, v);
    assert forall|i: int| 0 <= i < all.len() implies lookup(m.files, #[trigger] all[i]) is Some by {
        assert(backed(m, root, v, all[i]));
        let j = choose|j: int|
            0 <= j < v.len() && all[i] == commit_file_at(root, #[trigger] v[j]) && commit_of(
                m,
                root,
                v[j],
            ) is Some;
    }
    lemma_no_more_than_keys(m.files, all);
}

proof fn lemma_nearest_complete(m: Machine, root: Seq<char>, v: Seq<Seq<char>>, at: int, fuel: nat)
    requires
        v.no_duplicates(),
        0 <= at <= v.len(),
        loaded(m, root, v.take(at)).len() + fuel == m.files.len(),
        forall|i: int, parent: Seq<char>|
            0 <= i < at && #[trigger] leads_to(m, root, v[i], parent) ==> v.contains(parent),
    ensures
        ({
            let all = nearest_from(m, root, v, at, fuel);
            &&& forall|i: int| 0 <= i < v.len() ==> all.contains(#[trigger] v[i])
            &&& forall|id: Seq<char>, parent: Seq<char>|
                all.contains(id) && #[trigger] leads_to(m, root, id, parent) ==> all.contains(parent)
        }),
    decreases fuel, v.len() - at,
{
    let all = nearest_from(m, root, v, at, fuel);
    if at >= v.len() {
        assert forall|id: Seq<char>, parent: Seq<char>|
            all.contains(id) && #[trigger] leads_to(m, root, id, parent) implies all.contains(parent) by {
            let i = choose|i: int| 0 <= i < v.len() && v[i] == id;
            assert(leads_to(m, root, v[i], parent));
        }
    } else {
        let next = v.take(at + 1);
        assert(next.drop_last() =~= v.take(at));
        assert(next.last() == v[at]);
        assert(next.no_duplicates());
        lemma_no_more_than_files(m, root, next);
        match commit_of(m, root, v[at]) {
            None => {
                assert forall|i: int, parent: Seq<char>|
                    0 <= i < at + 1 && #[trigger] leads_to(m, root, v[i], parent) implies v.contains(parent) by {
                    assert(i < at);
                }
                lemma_nearest_complete(m, root, v, at + 1, fuel);
            },
            Some(n) => {
                let w = with_new(v, n.parents);
                lemma_with_new(v, n.parents);
                assert(fuel > 0);
                assert(w.take(at + 1) =~= next);
                assert forall|i: int, parent: Seq<char>|
                    0 <= i < at + 1 && #[trigger] leads_to(m, root, w[i], parent) implies w.contains(parent) by {
                    assert(w[i] == v[i]);
                    if i < at {
                        assert(leads_to(m, root, v[i], parent));
                        let k = choose|k: int| 0 <= k < v.len() && v[k] == parent;
                        assert(w[k] == parent);
                    } else {
                        let k = choose|k: int| 0 <= k < n.parents.len() && n.parents[k] == parent;
                        assert(w.contains(n.parents[k]));
                    }
                }
                lemma_nearest_complete(m, root, w, at + 1, (fuel - 1) as nat);
                assert forall|i: int| 0 <= i < v.len() implies all.contains(#[trigger] v[i]) by {
                    assert(w[i] == v[i]);
                }
            },
        }
    }
}

proof fn lemma_nearest_inside(
    m: Machine,
    root: Seq<char>,
    v: Seq<Seq<char>>,
    at: int,
    fuel: nat,
    p: spec_fn(Seq<char>) -> bool,
    x: Seq<char>,
)
    requires
        v.no_duplicates(),
        0 <= at <= v.len(),
        handed_down(m, root, p),
        forall|i: int| 0 <= i < v.len() ==> p(#[trigger] v[i]),
        nearest_from(m, root, v, at, fuel).contains(x),
    ensures
        p(x),
    decreases fuel, v.len() - at,
{
    if at < v.len() {
        match commit_of(m, root, v[at]) {
            None => lemma_nearest_inside(m, root, v, at + 1, fuel, p, x),
            Some(n) => {
                if fuel > 0 {
                    let w = with_new(v, n.parents);
                    lemma_with_new(v, n.parents);
                    assert forall|i: int| 0 <= i < w.len() implies p(#[trigger] w[i]) by {
                        if v.contains(w[i]) {
                            let k = choose|k: int| 0 <= k < v.len() && v[k] == w[i];
                            assert(p(v[k]));
                        } else {
                            assert(p(v[at]));
                            assert(leads_to(m, root, v[at], w[i]));
                        }
                    }
                    lemma_nearest_inside(m, root, w, at + 1, (fuel - 1) as nat, p, x);
                } else {
                    let k = choose|k: int| 0 <= k < v.len() && v[k] == x;
                    assert(p(v[k]));
                }
            },
        }
    } else {
        let k = choose|k: int| 0 <= k < v.len() && v[k] == x;
        assert(p(v[k]));
    }
}

/// The list of ancestors with the nearest first holds the commit and all that its members lead to. It
/// holds nothing else: its members are among whatever holds the commit and is handed down.
pub proof fn lemma_nearest(m: Machine, root: Seq<char>, id: Seq<char>, p: spec_fn(Seq<char>) -> bool, x: Seq<char>)
    ensures
        nearest(m, root, id).contains(id),
        forall|a: Seq<char>, parent: Seq<char>|
            nearest(m, root, id).contains(a) && #[trigger] leads_to(m, root, a, parent) ==> nearest(
                m,
                root,
                id,
            ).contains(parent),
        nearest(m, root, id).contains(x) && p(id) && handed_down(m, root, p) ==> p(x),
{
    let v = seq![id];
    assert(v.take(0) =~= seq![]);
    lemma_nearest_complete(m, root, v, 0, m.files.len());
    assert(nearest(m, root, id).contains(v[0]));
    if nearest(m, root, id).contains(x) && p(id) && handed_down(m, root, p) {
        lemma_nearest_inside(m, root, v, 0, m.files.len(), p, x);
    }
}

/// Where all of its ancestors are collected, a commit has the same ancestors whichever way they are
/// listed.
pub proof fn lemma_same_ancestors(m: Machine, root: Seq<char>, id: Seq<char>, x: Seq<char>)
    requires
        ancestry(m, root, id).len() < MAX_ANCESTORS,
    ensures
        nearest(m, root, id).contains(x) <==> within(ancestry(m, root, id), x),
{
    let listed = |y: Seq<char>| nearest(m, root, id).contains(y);
    let held = held_test(ancestry(m, root, id));
    lemma_nearest(m, root, id, held, x);
    assert(handed_down(m, root, listed));
    lemma_ancestry(m, root, id, listed, x);
}

// ---------------------------------------------------------------------------
// The best common ancestor
// ---------------------------------------------------------------------------

proof fn lemma_with_names(s: Names, v: Seq<Seq<char>>, x: Seq<char>)
    ensures
        within(with_names(s, v), x) <==> (within(s, x) || v.contains(x)),
    decreases v.len(),
{
    if v.len() > 0 {
        let less = v.drop_last();
        lemma_with_names(s, less, x);
        lemma_lookup_bind(with_names(s, less), v.last(), (), x);
        if less.contains(x) {
            let i = choose|i: int| 0 <= i < less.len() && less[i] == x;
            assert(v[i] == x);
        }
        if v.contains(x) && x != v.last() {
            let i = choose|i: int| 0 <= i < v.len() && v[i] == x;
            assert(less[i] == x);
        }
        assert(v[v.len() - 1] == v.last());
    }
}

proof fn lemma_parents_among(m: Machine, root: Seq<char>, v: Seq<Seq<char>>, x: Seq<char>)
    ensures
        within(parents_among(m, root, v), x) <==> exists|e: Seq<char>|
            v.contains(e) && #[trigger] leads_to(m, root, e, x),
    decreases v.len(),
{
    if v.len() > 0 {
        let less = v.drop_last();
        let e = v.last();
        let head = parents_among(m, root, less);
        assert(v[v.len() - 1] == e);
        lemma_parents_among(m, root, less, x);
        if let Some(n) = commit_of(m, root, e) {
            lemma_with_names(head, n.parents, x);
        }
        if within(head, x) {
            let a = choose|a: Seq<char>| less.contains(a) && #[trigger] leads_to(m, root, a, x);
            let i = choose|i: int| 0 <= i < less.len() && less[i] == a;
            assert(v[i] == a);
            assert(v.contains(a) && leads_to(m, root, a, x));
        } else if within(parents_among(m, root, v), x) {
            assert(v.contains(e) && leads_to(m, root, e, x));
        }
        if exists|a: Seq<char>| v.contains(a) && #[trigger] leads_to(m, root, a, x) {
            let a = choose|a: Seq<char>| v.contains(a) && #[trigger] leads_to(m, root, a, x);
            if a != e {
                let i = choose|i: int| 0 <= i < v.len() && v[i] == a;
                assert(less[i] == a);
                assert(less.contains(a) && leads_to(m, root, a, x));
            }
        }
    }
}

proof fn lemma_highest(v: Seq<Seq<char>>, rank: spec_fn(Seq<char>) -> int) -> (top: int)
    requires
        v.len() > 0,
    ensures
        0 <= top < v.len(),
        forall|i: int| 0 <= i < v.len() ==> rank(#[trigger] v[i]) <= rank(v[top]),
    decreases v.len(),
{
    let last = v.len() - 1;
    if v.len() == 1 {
        0
    } else {
        let less = v.drop_last();
        let t = lemma_highest(less, rank);
        assert forall|i: int| 0 <= i < last implies rank(#[trigger] v[i]) <= rank(v[t]) by {
            assert(less[i] == v[i]);
            assert(less[t] == v[t]);
        }
        if rank(v[last]) > rank(v[t]) {
            last
        } else {
            t
        }
    }
}

/// Two commits have a common ancestor exactly if one is found, and what is found is one that no other
/// common ancestor has among its own ancestors. This holds where all ancestors can be collected and no
/// commit leads back to itself. `rank` bears witness of that: it is lower for a parent than for its
/// child.
pub proof fn lemma_best_base(
    m: Machine,
    root: Seq<char>,
    left: Seq<char>,
    right: Seq<char>,
    rank: spec_fn(Seq<char>) -> int,
)
    requires
        ancestry(m, root, left).len() < MAX_ANCESTORS,
        ancestry(m, root, right).len() < MAX_ANCESTORS,
        forall|id: Seq<char>, parent: Seq<char>| #[trigger]
            leads_to(m, root, id, parent) ==> rank(parent) < rank(id),
    ensures
        shared_base(m, root, left, right) is None <==> forall|c: Seq<char>|
            !(#[trigger] within(ancestry(m, root, left), c) && within(ancestry(m, root, right), c)),
        shared_base(m, root, left, right) matches Some(b) ==> within(ancestry(m, root, left), b) && within(
            ancestry(m, root, right),
            b,
        ) && forall|d: Seq<char>|
            #[trigger] within(ancestry(m, root, left), d) && within(ancestry(m, root, right), d) && d != b
                ==> !within(ancestry(m, root, d), b),
{
    let lefts = ancestry(m, root, left);
    let rights = ancestry(m, root, right);
    let near = nearest(m, root, left);
    let common = shared_ancestors(m, root, left, right);
    let inner = parents_among(m, root, common);
    let best = best_ancestors(m, root, left, right);
    assert forall|c: Seq<char>| common.contains(c) <==> #[trigger] within(lefts, c) && within(rights, c) by {
        lemma_same_ancestors(m, root, left, c);
        if common.contains(c) {
            lemma_kept_passes(near, held_test(rights), c);
        }
        if within(lefts, c) && within(rights, c) {
            lemma_kept_holds(near, held_test(rights), c);
        }
    }
    if common.len() > 0 {
        assert(common.contains(common[0]));
        assert(within(lefts, common[0]));
        let top = lemma_highest(common, rank);
        let c = common[top];
        lemma_parents_among(m, root, common, c);
        if within(inner, c) {
            let e = choose|e: Seq<char>| common.contains(e) && #[trigger] leads_to(m, root, e, c);
            let i = choose|i: int| 0 <= i < common.len() && common[i] == e;
            assert(rank(common[i]) <= rank(c));
        }
        lemma_kept_holds(common, missing_test(inner), c);
        let b = best[0];
        assert(best.contains(b));
        lemma_kept_passes(common, missing_test(inner), b);
        assert forall|d: Seq<char>|
            #[trigger] within(lefts, d) && within(rights, d) && d != b implies !within(
            ancestry(m, root, d),
            b,
        ) by {
            if within(ancestry(m, root, d), b) {
                lemma_ancestry(m, root, left, held_test(lefts), b);
                lemma_ancestry(m, root, right, held_test(rights), b);
                lemma_ancestry(m, root, d, held_test(lefts), b);
                let e = choose|e: Seq<char>|
                    within(ancestry(m, root, d), e) && #[trigger] leads_to(m, root, e, b);
                lemma_ancestry(m, root, d, held_test(lefts), e);
                lemma_ancestry(m, root, d, held_test(rights), e);
                assert(within(lefts, e) && within(rights, e));
                assert(common.contains(e));
                lemma_parents_among(m, root, common, b);
            }
        }
    } else {
        assert forall|c: Seq<char>| !(#[trigger] within(lefts, c) && within(rights, c)) by {
            assert(!common.contains(c));
        }
    }
}

} // verus!
