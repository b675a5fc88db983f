//! Walks through history: ancestors, common ancestors, and the order commits are listed in.

use vstd::prelude::*;

use crate::names::{add_names, kept, with_names, with_new};
use crate::order::{bind, lemma_lookup_bind, lookup, Duplicate, OrdMap};
use crate::records::{Commit, Note};
use crate::repo::{commit_of, load_commit};
use crate::system::{Machine, System};
use crate::text::{copy_text, copy_texts, lemma_texts_push, opt_text, same, texts};

verus! {

/// A set of names, in order.
pub type Names = Seq<(Seq<char>, ())>;

/// Whether a set holds a name.
pub open spec fn within(s: Names, name: Seq<char>) -> bool {
    lookup(s, name) is Some
}

/// A commit with its id.
pub type Listed = (Seq<char>, Note);

/// The commits of a list.
pub open spec fn listed(v: Seq<(String, Commit)>) -> Seq<Listed> {
    v.map_values(|e: (String, Commit)| (e.0@, e.1@))
}

/// Adding a commit adds what it holds.
pub broadcast proof fn lemma_listed_push(v: Seq<(String, Commit)>, e: (String, Commit))
    ensures
        #[trigger] listed(v.push(e)) == listed(v).push((e.0@, e.1@)),
{
    assert(listed(v.push(e)) =~= listed(v).push((e.0@, e.1@)));
}

/// A new key makes a list of bindings one longer.
pub proof fn lemma_bind_length<T>(m: Seq<(Seq<char>, T)>, k: Seq<char>, v: T)
    ensures
        bind(m, k, v).len() == (if lookup(m, k) is None {
            m.len() + 1
        } else {
            m.len()
        }) || (lookup(m, k) is Some && bind(m, k, v).len() == m.len() + 1),
        lookup(m, k) is None ==> bind(m, k, v).len() == m.len() + 1,
    decreases m.len(),
{
    if m.len() > 0 && m[0].0 != k {
        lemma_bind_length(m.subrange(1, m.len() as int), k, v);
    }
}

// ---------------------------------------------------------------------------
// First parents
// ---------------------------------------------------------------------------

/// The commits along first parents from `id` on, newest first, at most `limit`.
pub open spec fn first_parents(
    m: Machine,
    root: Seq<char>,
    id: Option<Seq<char>>,
    limit: nat,
    seen: Names,
) -> Seq<Listed>
    decreases limit,
{
    match id {
        None => seq![],
        Some(i) => if limit == 0 || within(seen, i) {
            seq![]
        } else {
            match commit_of(m, root, i) {
                None => seq![],
                Some(n) => seq![(i, n)] + first_parents(
                    m,
                    root,
                    if n.parents.len() > 0 {
                        Some(n.parents[0])
                    } else {
                        None
                    },
                    (limit - 1) as nat,
                    bind(seen, i, ()),
                ),
            }
        },
    }
}

/// The commits along first parents from `start` on, newest first, at most `limit`.
pub fn first_parent_history(system: &System, root: &str, start: &str, limit: usize) -> (r: Vec<
    (String, Commit),
>)
    ensures
        listed(r@) == first_parents(system@, root@, Some(start@), limit as nat, seq![]),
{
    let mut out: Vec<(String, Commit)> = Vec::new();
    let mut current: Option<String> = Some(copy_text(start));
    let mut seen: OrdMap<()> = OrdMap::new();
    let mut left: usize = limit;
    let ghost goal = first_parents(system@, root@, Some(start@), limit as nat, seq![]);
    assert(listed(out@) + goal =~= goal);
    loop
        invariant
            goal == first_parents(system@, root@, Some(start@), limit as nat, seq![]),
            listed(out@) + first_parents(
                system@,
                root@,
                opt_text(current),
                left as nat,
                seen@,
            ) == goal,
        decreases left,
    {
        broadcast use lemma_listed_push;

        let id = match current {
            Some(id) => id,
            None => {
                assert(listed(out@) + seq![] =~= listed(out@));
                return out;
            },
        };
        if left == 0 || seen.contains_key(id.as_str()) {
            assert(listed(out@) + seq![] =~= listed(out@));
            return out;
        }
        let commit = match load_commit(system, root, id.as_str()) {
            Some(c) => c,
            None => {
                assert(listed(out@) + seq![] =~= listed(out@));
                return out;
            },
        };
        seen.insert(copy_text(id.as_str()), ());
        current = if commit.parents.len() > 0 {
            assert(commit@.parents[0] == commit.parents@[0]@);
            Some(copy_text(commit.parents[0].as_str()))
        } else {
            assert(commit@.parents.len() == 0);
            None
        };
        left -= 1;
        let ghost was = listed(out@);
        let ghost rest = first_parents(system@, root@, opt_text(current), left as nat, seen@);
        assert(was + (seq![(id@, commit@)] + rest) =~= was.push((id@, commit@)) + rest);
        out.push((id, commit));
    }
}

// ---------------------------------------------------------------------------
// Ancestors
// ---------------------------------------------------------------------------

/// The most ancestors that are collected.
pub const MAX_ANCESTORS: usize = 10_000;

/// The ids reached from those on `stack`, the last one first, together with `seen`.
pub open spec fn reached(m: Machine, root: Seq<char>, stack: Seq<Seq<char>>, seen: Names) -> Names
    decreases MAX_ANCESTORS - seen.len(), stack.len(),
{
    if stack.len() == 0 {
        seen
    } else {
        let id = stack.last();
        let rest = stack.drop_last();
        if seen.len() >= MAX_ANCESTORS || within(seen, id) {
            reached(m, root, rest, seen)
        } else {
            proof {
                lemma_bind_length(seen, id, ());
            }
            match commit_of(m, root, id) {
                Some(n) => reached(m, root, rest + n.parents, bind(seen, id, ())),
                None => reached(m, root, rest, bind(seen, id, ())),
            }
        }
    }
}

/// The ancestors of a commit, itself among them.
pub open spec fn ancestry(m: Machine, root: Seq<char>, id: Seq<char>) -> Names {
    reached(m, root, seq![id], seq![])
}

/// Pushes copies of texts.
fn push_texts(out: &mut Vec<String>, v: &[String])
    ensures
        texts(final(out)@) == texts(old(out)@) + texts(v@),
        final(out)@.len() == old(out)@.len() + v@.len(),
{
    let mut more = copy_texts(v);
    let ghost a = out@;
    let ghost b = more@;
    out.append(&mut more);
    assert(texts(a + b) =~= texts(a) + texts(b));
    assert(texts(b).len() == b.len() && texts(v@).len() == v@.len());
}

/// The ancestors of a commit, itself among them.
pub fn ancestors(system: &System, root: &str, commit: &str) -> (r: OrdMap<()>)
    ensures
        r@ == ancestry(system@, root@, commit@),
{
    let mut seen: OrdMap<()> = OrdMap::new();
    let mut stack: Vec<String> = Vec::new();
    stack.push(copy_text(commit));
    assert(texts(stack@) =~= seq![commit@]);
    assert(seen@ =~= seq![]);
    while stack.len() > 0
        invariant
            ancestry(system@, root@, commit@) == reached(system@, root@, texts(stack@), seen@),
        decreases MAX_ANCESTORS - seen@.len(), stack@.len(),
    {
        let ghost was = texts(stack@);
        let id = match stack.pop() {
            Some(id) => id,
            None => return seen,
        };
        assert(was.last() == id@);
        assert(was.drop_last() =~= texts(stack@));
        if seen.len() >= MAX_ANCESTORS || seen.contains_key(id.as_str()) {
            continue ;
        }
        proof {
            lemma_bind_length(seen@, id@, ());
        }
        if let Some(c) = load_commit(system, root, id.as_str()) {
            push_texts(&mut stack, c.parents.as_slice());
        }
        seen.insert(id, ());
    }
    seen
}

// ---------------------------------------------------------------------------
// Common ancestors
// ---------------------------------------------------------------------------

/// The ids reached from those of a list, the parents of the id at `at` next. Each is entered once;
/// `fuel` bounds how many of them are commits.
pub open spec fn nearest_from(m: Machine, root: Seq<char>, v: Seq<Seq<char>>, at: int, fuel: nat) -> Seq<
    Seq<char>,
>
    decreases fuel, v.len() - at,
{
    if at < 0 || at >= v.len() {
        v
    } else {
        match commit_of(m, root, v[at]) {
            Some(n) => if fuel == 0 {
                v
            } else {
                nearest_from(m, root, with_new(v, n.parents), at + 1, (fuel - 1) as nat)
            },
            None => nearest_from(m, root, v, at + 1, fuel),
        }
    }
}

/// The ancestors of a commit, itself among them, the nearest first. There are no more commits than
/// files.
pub open spec fn nearest(m: Machine, root: Seq<char>, id: Seq<char>) -> Seq<Seq<char>> {
    nearest_from(m, root, seq![id], 0, m.files.len())
}

/// The parents of commits.
pub open spec fn parents_among(m: Machine, root: Seq<char>, v: Seq<Seq<char>>) -> Names
    decreases v.len(),
{
    if v.len() == 0 {
        seq![]
    } else {
        let head = parents_among(m, root, v.drop_last());
        match commit_of(m, root, v.last()) {
            Some(n) => with_names(head, n.parents),
            None => head,
        }
    }
}

/// The test for names that a set holds.
pub open spec fn held_test(s: Names) -> spec_fn(Seq<char>) -> bool {
    |id: Seq<char>| within(s, id)
}

/// The test for names that a set does not hold.
pub open spec fn missing_test(s: Names) -> spec_fn(Seq<char>) -> bool {
    |id: Seq<char>| !within(s, id)
}

/// The common ancestors of two commits, those nearest `left` first.
pub open spec fn shared_ancestors(m: Machine, root: Seq<char>, left: Seq<char>, right: Seq<char>) -> Seq<
    Seq<char>,
> {
    kept(nearest(m, root, left), held_test(ancestry(m, root, right)))
}

/// The best common ancestors of two commits, those nearest `left` first: the ones that no common
/// ancestor leads to.
pub open spec fn best_ancestors(m: Machine, root: Seq<char>, left: Seq<char>, right: Seq<char>) -> Seq<
    Seq<char>,
> {
    let common = shared_ancestors(m, root, left, right);
    kept(common, missing_test(parents_among(m, root, common)))
}

/// The best common ancestor of two commits, the one nearest `left` where there are several. Where
/// commits lead back to themselves there may be no best one; then any of them will do.
pub open spec fn shared_base(m: Machine, root: Seq<char>, left: Seq<char>, right: Seq<char>) -> Option<
    Seq<char>,
> {
    let common = shared_ancestors(m, root, left, right);
    let best = best_ancestors(m, root, left, right);
    if best.len() > 0 {
        Some(best[0])
    } else if common.len() > 0 {
        Some(common[0])
    } else {
        None
    }
}

fn push_new(v: &mut Vec<String>, seen: &mut OrdMap<()>, ids: &[String])
    requires
        forall|id: Seq<char>| #[trigger] within(old(seen)@, id) <==> texts(old(v)@).contains(id),
    ensures
        texts(final(v)@) == with_new(texts(old(v)@), texts(ids@)),
        forall|id: Seq<char>| #[trigger] within(final(seen)@, id) <==> texts(final(v)@).contains(id),
        final(v)@.len() >= old(v)@.len(),
{
    broadcast use lemma_texts_push;

    let ghost start = texts(v@);
    let ghost all = texts(ids@);
    let mut i: usize = 0;
    assert(all.take(0) =~= seq![]);
    while i < ids.len()
        invariant
            i <= ids.len(),
            all == texts(ids@),
            texts(v@) == with_new(start, all.take(i as int)),
            forall|id: Seq<char>| #[trigger] within(seen@, id) <==> texts(v@).contains(id),
            v@.len() >= old(v)@.len(),
        decreases ids.len() - i,
    {
        broadcast use lemma_texts_push;

        assert(all.take(i + 1).drop_last() =~= all.take(i as int));
        assert(all.take(i + 1).last() == ids@[i as int]@);
        let id = ids[i].as_str();
        assert(within(seen@, id@) <==> texts(v@).contains(id@));
        if !seen.contains_key(id) {
            let ghost was = texts(v@);
            let ghost known = seen@;
            seen.insert(copy_text(id), ());
            v.push(copy_text(id));
            assert forall|x: Seq<char>| #[trigger] within(seen@, x) <==> texts(v@).contains(x) by {
                lemma_lookup_bind(known, id@, (), x);
                assert(within(known, x) <==> was.contains(x));
                lemma_pushed(was, id@, x);
            }
        }
        i += 1;
    }
    assert(all.take(i as int) =~= all);
}

proof fn lemma_pushed(v: Seq<Seq<char>>, id: Seq<char>, x: Seq<char>)
    ensures
        v.push(id).contains(x) <==> (v.contains(x) || x == id),
{
    if v.contains(x) {
        let i = choose|i: int| 0 <= i < v.len() && v[i] == x;
        assert(v.push(id)[i] == x);
    }
    if x == id {
        assert(v.push(id)[v.len() as int] == x);
    }
}

/// The ancestors of a commit, itself among them, the nearest first.
fn list_nearest(system: &System, root: &str, id: &str) -> (r: Vec<String>)
    ensures
        texts(r@) == nearest(system@, root@, id@),
{
    let mut v: Vec<String> = Vec::new();
    let mut seen: OrdMap<()> = OrdMap::new();
    v.push(copy_text(id));
    let ghost none = seen@;
    seen.insert(copy_text(id), ());
    assert(texts(v@) =~= seq![id@]);
    assert forall|x: Seq<char>| #[trigger] within(seen@, x) <==> texts(v@).contains(x) by {
        lemma_lookup_bind(none, id@, (), x);
        lemma_pushed(seq![], id@, x);
        assert(seq![id@] =~= Seq::<Seq<char>>::empty().push(id@));
    }
    let mut fuel: usize = system.file_count();
    let mut at: usize = 0;
    while at < v.len()
        invariant
            at <= v@.len(),
            forall|x: Seq<char>| #[trigger] within(seen@, x) <==> texts(v@).contains(x),
            nearest(system@, root@, id@) == nearest_from(
                system@,
                root@,
                texts(v@),
                at as int,
                fuel as nat,
            ),
        decreases fuel, v@.len() - at,
    {
        assert(texts(v@).len() == v@.len());
        assert(texts(v@)[at as int] == v@[at as int]@);
        if let Some(c) = load_commit(system, root, v[at].as_str()) {
            if fuel == 0 {
                return v;
            }
            fuel -= 1;
            push_new(&mut v, &mut seen, c.parents.as_slice());
        }
        at += 1;
    }
    assert(texts(v@).len() == v@.len());
    v
}

fn list_parents(system: &System, root: &str, v: &[String]) -> (r: OrdMap<()>)
    ensures
        r@ == parents_among(system@, root@, texts(v@)),
{
    let ghost all = texts(v@);
    let mut set: OrdMap<()> = OrdMap::new();
    let mut i: usize = 0;
    assert(set@ =~= seq![]);
    while i < v.len()
        invariant
            i <= v.len(),
            all == texts(v@),
            set@ == parents_among(system@, root@, all.take(i as int)),
        decreases v.len() - i,
    {
        assert(all.take(i + 1).drop_last() =~= all.take(i as int));
        assert(all.take(i + 1).last() == v@[i as int]@);
        if let Some(c) = load_commit(system, root, v[i].as_str()) {
            add_names(&mut set, c.parents.as_slice());
        }
        i += 1;
    }
    assert(all.take(i as int) =~= all);
    set
}

fn keep_held(v: &[String], s: &OrdMap<()>, held: bool) -> (r: Vec<String>)
    ensures
        texts(r@) == kept(
            texts(v@),
            if held {
                held_test(s@)
            } else {
                missing_test(s@)
            },
        ),
{
    let ghost all = texts(v@);
    let ghost test = if held {
        held_test(s@)
    } else {
        missing_test(s@)
    };
    let mut out: Vec<String> = Vec::new();
    let mut i: usize = 0;
    assert(texts(out@) =~= seq![]);
    while i < v.len()
        invariant
            i <= v.len(),
            all == texts(v@),
            test == (if held {
                held_test(s@)
            } else {
                missing_test(s@)
            }),
            texts(out@) == kept(all.take(i as int), test),
        decreases v.len() - i,
    {
        broadcast use lemma_texts_push;

        assert(all.take(i + 1).drop_last() =~= all.take(i as int));
        assert(all.take(i + 1).last() == v@[i as int]@);
        if s.contains_key(v[i].as_str()) == held {
            out.push(copy_text(v[i].as_str()));
        }
        i += 1;
    }
    assert(all.take(i as int) =~= all);
    out
}

/// The best common ancestor of two commits, preferring the one nearest `left`.
pub fn merge_base(system: &System, root: &str, left: &str, right: &str) -> (r: Option<String>)
    ensures
        opt_text(r) == shared_base(system@, root@, left@, right@),
{
    let near = list_nearest(system, root, left);
    let others = ancestors(system, root, right);
    let common = keep_held(near.as_slice(), &others, true);
    let inner = list_parents(system, root, common.as_slice());
    let best = keep_held(common.as_slice(), &inner, false);
    assert(texts(best@).len() == best@.len());
    assert(texts(common@).len() == common@.len());
    if best.len() > 0 {
        assert(texts(best@)[0] == best@[0]@);
        Some(copy_text(best[0].as_str()))
    } else if common.len() > 0 {
        assert(texts(common@)[0] == common@[0]@);
        Some(copy_text(common[0].as_str()))
    } else {
        None
    }
}

// ---------------------------------------------------------------------------
// Everything reachable, in order
// ---------------------------------------------------------------------------

/// Where a list of commits holds an id.
pub open spec fn place_of(v: Seq<Listed>, id: Seq<char>) -> Option<int>
    decreases v.len(),
{
    if v.len() == 0 {
        None
    } else if v.last().0 == id {
        Some(v.len() - 1)
    } else {
        place_of(v.drop_last(), id)
    }
}

/// The commits found from those in `queue` on, in the order of finding, at most `limit`.
pub open spec fn found_from(
    m: Machine,
    root: Seq<char>,
    queue: Seq<Seq<char>>,
    found: Seq<Listed>,
    limit: nat,
) -> Seq<Listed>
    decreases limit - found.len(), queue.len(),
{
    if queue.len() == 0 {
        found
    } else {
        let id = queue[0];
        let rest = queue.subrange(1, queue.len() as int);
        if found.len() >= limit || place_of(found, id) is Some {
            found_from(m, root, rest, found, limit)
        } else {
            match commit_of(m, root, id) {
                Some(n) => found_from(m, root, rest + n.parents, found.push((id, n)), limit),
                None => found_from(m, root, rest, found, limit),
            }
        }
    }
}

/// How often `id` stands among `parents`.
pub open spec fn times(parents: Seq<Seq<char>>, id: Seq<char>) -> nat
    decreases parents.len(),
{
    if parents.len() == 0 {
        0
    } else {
        times(parents.drop_last(), id) + if parents.last() == id {
            1nat
        } else {
            0nat
        }
    }
}

/// How often `id` is a parent of a commit of the list.
pub open spec fn child_links(v: Seq<Listed>, id: Seq<char>) -> nat
    decreases v.len(),
{
    if v.len() == 0 {
        0
    } else {
        child_links(v.drop_last(), id) + times(v.last().1.parents, id)
    }
}

/// The state of the ordering: how many links to each commit are still open, which commits are
/// ready, and which are listed.
pub struct Sorting {
    pub open: Seq<int>,
    pub ready: Seq<int>,
    pub out: Seq<int>,
}

/// Whether the commit `a` is listed before `b` where both are ready: the newer one, or the one
/// that was found earlier.
pub open spec fn sooner(v: Seq<Listed>, a: int, b: int) -> bool {
    v[a].1.timestamp > v[b].1.timestamp || (v[a].1.timestamp == v[b].1.timestamp && a < b)
}

/// Where among the first `n` ready commits the one stands that is listed next.
pub open spec fn next_ready(v: Seq<Listed>, ready: Seq<int>, n: int) -> int
    decreases n,
{
    if n <= 1 {
        0
    } else {
        let best = next_ready(v, ready, n - 1);
        if sooner(v, ready[n - 1], ready[best]) {
            n - 1
        } else {
            best
        }
    }
}

/// The state once the link to the parent `id` is closed.
pub open spec fn link_closed(v: Seq<Listed>, s: Sorting, id: Seq<char>) -> Sorting {
    match place_of(v, id) {
        Some(k) => if s.open[k] > 0 {
            Sorting {
                open: s.open.update(k, s.open[k] - 1),
                ready: if s.open[k] == 1 {
                    s.ready.push(k)
                } else {
                    s.ready
                },
                out: s.out,
            }
        } else {
            s
        },
        None => s,
    }
}

/// The state once the links to the first `n` parents are closed.
pub open spec fn links_closed(v: Seq<Listed>, s: Sorting, parents: Seq<Seq<char>>) -> Sorting
    decreases parents.len(),
{
    if parents.len() == 0 {
        s
    } else {
        link_closed(v, links_closed(v, s, parents.drop_last()), parents.last())
    }
}

/// The state once the next ready commit is listed.
pub open spec fn one_listed(v: Seq<Listed>, s: Sorting) -> Sorting {
    let at = next_ready(v, s.ready, s.ready.len() as int);
    let k = s.ready[at];
    let t = links_closed(
        v,
        Sorting { open: s.open, ready: s.ready.remove(at), out: s.out },
        v[k].1.parents,
    );
    Sorting { open: t.open, ready: t.ready, out: t.out.push(k) }
}

/// The state once all that become ready are listed, at most `fuel`.
pub open spec fn all_listed(v: Seq<Listed>, s: Sorting, fuel: nat) -> Sorting
    decreases fuel,
{
    if fuel == 0 || s.ready.len() == 0 {
        s
    } else {
        all_listed(v, one_listed(v, s), (fuel - 1) as nat)
    }
}

/// The commits among the first `n` that no commit of the list leads to.
pub open spec fn tips(v: Seq<Listed>, n: int) -> Seq<int>
    decreases n,
{
    if n <= 0 {
        seq![]
    } else if child_links(v, v[n - 1].0) == 0 {
        tips(v, n - 1).push(n - 1)
    } else {
        tips(v, n - 1)
    }
}

/// The state at the start: every link open, the tips ready.
pub open spec fn unsorted(v: Seq<Listed>) -> Sorting {
    Sorting {
        open: Seq::new(v.len(), |k: int| child_links(v, v[k].0) as int),
        ready: tips(v, v.len() as int),
        out: seq![],
    }
}

/// The order in which the commits of a list come, as positions: none before a commit that leads
/// to it, newer ones first where there is a choice.
pub open spec fn listing(v: Seq<Listed>) -> Seq<int> {
    all_listed(v, unsorted(v), v.len()).out
}

/// The commits reachable from `starts`, newest first.
pub open spec fn reachable(m: Machine, root: Seq<char>, starts: Seq<Seq<char>>, limit: nat) -> Seq<
    Listed,
> {
    let v = found_from(m, root, starts, seq![], limit);
    listing(v).map_values(|k: int| v[k])
}

fn find_place(v: &[(String, Commit)], id: &str) -> (r: Option<usize>)
    ensures
        match r {
            Some(i) => place_of(listed(v@), id@) == Some(i as int) && i < v@.len(),
            None => place_of(listed(v@), id@) is None,
        },
{
    let ghost all = listed(v@);
    let mut i: usize = v.len();
    assert(all.take(all.len() as int) =~= all);
    while i > 0
        invariant
            i <= v@.len(),
            all == listed(v@),
            place_of(all, id@) == place_of(all.take(i as int), id@),
        decreases i,
    {
        assert(all.take(i as int).drop_last() =~= all.take(i - 1));
        assert(all.take(i as int).last() == (v@[i - 1].0@, v@[i - 1].1@));
        if same(v[i - 1].0.as_str(), id) {
            return Some(i - 1);
        }
        i -= 1;
    }
    None
}

/// The commits found from `starts` on, in the order of finding.
fn find_commits(system: &System, root: &str, starts: &[String], limit: usize) -> (r: Vec<
    (String, Commit),
>)
    ensures
        listed(r@) == found_from(system@, root@, texts(starts@), seq![], limit as nat),
{
    let mut found: Vec<(String, Commit)> = Vec::new();
    let mut queue: Vec<String> = copy_texts(starts);
    let mut at: usize = 0;
    let ghost goal = found_from(system@, root@, texts(starts@), seq![], limit as nat);
    assert(listed(found@) =~= seq![]);
    assert(texts(queue@).subrange(0, queue@.len() as int) =~= texts(queue@));
    while at < queue.len()
        invariant
            at <= queue@.len(),
            goal == found_from(system@, root@, texts(starts@), seq![], limit as nat),
            goal == found_from(
                system@,
                root@,
                texts(queue@).subrange(at as int, queue@.len() as int),
                listed(found@),
                limit as nat,
            ),
        decreases limit - found@.len(), queue@.len() - at,
    {
        broadcast use lemma_listed_push;

        let ghost left = texts(queue@).subrange(at as int, queue@.len() as int);
        let ghost rest = texts(queue@).subrange(at + 1, queue@.len() as int);
        assert(left[0] == queue@[at as int]@);
        assert(left.subrange(1, left.len() as int) =~= rest);
        let id = copy_text(queue[at].as_str());
        at += 1;
        if found.len() >= limit || find_place(found.as_slice(), id.as_str()).is_some() {
            assert(listed(found@).len() == found@.len());
            continue ;
        }
        assert(listed(found@).len() == found@.len());
        if let Some(c) = load_commit(system, root, id.as_str()) {
            let ghost was = texts(queue@);
            push_texts(&mut queue, c.parents.as_slice());
            assert(texts(queue@).subrange(at as int, queue@.len() as int) =~= rest + c@.parents);
            found.push((id, c));
        }
    }
    assert(texts(queue@).subrange(at as int, queue@.len() as int) =~= seq![]);
    found
}

fn count_times(parents: &[String], id: &str) -> (r: usize)
    ensures
        r == times(texts(parents@), id@),
        r <= parents@.len(),
{
    let ghost all = texts(parents@);
    let mut n: usize = 0;
    let mut i: usize = 0;
    while i < parents.len()
        invariant
            i <= parents.len(),
            all == texts(parents@),
            n == times(all.take(i as int), id@),
            n <= i,
        decreases parents.len() - i,
    {
        assert(all.take(i + 1).drop_last() =~= all.take(i as int));
        assert(all.take(i + 1).last() == parents@[i as int]@);
        if same(parents[i].as_str(), id) {
            n += 1;
        }
        i += 1;
    }
    assert(all.take(i as int) =~= all);
    n
}

/// How often `id` is a parent of a commit of the list.
fn count_links(v: &[(String, Commit)], id: &str) -> (r: u128)
    ensures
        r == child_links(listed(v@), id@),
{
    let ghost all = listed(v@);
    let mut n: u128 = 0;
    let mut i: usize = 0;
    while i < v.len()
        invariant
            i <= v.len(),
            all == listed(v@),
            n == child_links(all.take(i as int), id@),
            n <= i * 0xffff_ffff_ffff_ffff,
        decreases v.len() - i,
    {
        assert(all.take(i + 1).drop_last() =~= all.take(i as int));
        assert(all.take(i + 1).last() == (v@[i as int].0@, v@[i as int].1@));
        let k = count_times(v[i].1.parents.as_slice(), id);
        assert(i * 0xffff_ffff_ffff_ffff + 0xffff_ffff_ffff_ffff == (i + 1)
            * 0xffff_ffff_ffff_ffff);
        n = n + k as u128;
        i += 1;
    }
    assert(all.take(i as int) =~= all);
    n
}

/// The integers of a list.
pub open spec fn ints(v: Seq<u128>) -> Seq<int> {
    v.map_values(|n: u128| n as int)
}

/// The positions of a list.
pub open spec fn spots(v: Seq<usize>) -> Seq<int> {
    v.map_values(|n: usize| n as int)
}

/// The position among the ready commits of the one that is listed next.
fn pick_next(v: &[(String, Commit)], ready: &[usize]) -> (r: usize)
    requires
        ready@.len() > 0,
        forall|i: int| 0 <= i < ready@.len() ==> #[trigger] ready@[i] < v@.len(),
    ensures
        r == next_ready(listed(v@), spots(ready@), ready@.len() as int),
        r < ready@.len(),
{
    let ghost all = listed(v@);
    let ghost rs = spots(ready@);
    let mut best: usize = 0;
    let mut n: usize = 1;
    while n < ready.len()
        invariant
            1 <= n <= ready@.len(),
            best < n,
            all == listed(v@),
            rs == spots(ready@),
            forall|i: int| 0 <= i < ready@.len() ==> #[trigger] ready@[i] < v@.len(),
            best == next_ready(all, rs, n as int),
        decreases ready.len() - n,
    {
        let a = ready[n];
        let b = ready[best];
        assert(all[a as int] == (v@[a as int].0@, v@[a as int].1@));
        assert(all[b as int] == (v@[b as int].0@, v@[b as int].1@));
        assert(rs[n as int] == a && rs[best as int] == b);
        let x = v[a].1.timestamp;
        let y = v[b].1.timestamp;
        if x > y || (x == y && a < b) {
            best = n;
        }
        n += 1;
    }
    best
}

/// The commits reachable from `starts`, newest first. A commit comes only after every commit of
/// the list that leads to it; of those that may come next, the newest does.
pub fn reachable_history(system: &System, root: &str, starts: &[String], limit: usize) -> (r: Vec<
    (String, Commit),
>)
    ensures
        listed(r@) == reachable(system@, root@, texts(starts@), limit as nat),
{
    let found = find_commits(system, root, starts, limit);
    let ghost v = listed(found@);
    let mut open: Vec<u128> = Vec::new();
    let mut ready: Vec<usize> = Vec::new();
    let mut i: usize = 0;
    assert(spots(ready@) =~= tips(v, 0));
    while i < found.len()
        invariant
            i <= found.len(),
            v == listed(found@),
            open@.len() == i,
            forall|k: int| 0 <= k < i ==> #[trigger] open@[k] == child_links(v, v[k].0),
            spots(ready@) == tips(v, i as int),
            forall|k: int| 0 <= k < ready@.len() ==> #[trigger] ready@[k] < found@.len(),
        decreases found.len() - i,
    {
        assert(v[i as int] == (found@[i as int].0@, found@[i as int].1@));
        let n = count_links(found.as_slice(), found[i].0.as_str());
        open.push(n);
        if n == 0 {
            let ghost was = spots(ready@);
            ready.push(i);
            assert(spots(ready@) =~= was.push(i as int));
        }
        i += 1;
    }
    assert(ints(open@) =~= unsorted(v).open);
    let mut out: Vec<(String, Commit)> = Vec::new();
    let ghost mut picked: Seq<int> = seq![];
    let mut fuel: usize = found.len();
    let ghost goal = all_listed(v, unsorted(v), v.len()).out;
    assert(listed(out@) =~= picked.map_values(|k: int| v[k]));
    while fuel > 0 && ready.len() > 0
        invariant
            v == listed(found@),
            open@.len() == found@.len(),
            forall|k: int| 0 <= k < ready@.len() ==> #[trigger] ready@[k] < found@.len(),
            goal == all_listed(
                v,
                Sorting { open: ints(open@), ready: spots(ready@), out: picked },
                fuel as nat,
            ).out,
            listed(out@) == picked.map_values(|k: int| v[k]),
        decreases fuel,
    {
        broadcast use lemma_listed_push;

        let ghost s0 = Sorting { open: ints(open@), ready: spots(ready@), out: picked };
        let at = pick_next(found.as_slice(), ready.as_slice());
        let k = ready[at];
        let ghost before = ready@;
        let _ = ready.remove(at);
        assert(spots(ready@) =~= spots(before).remove(at as int));
        assert(forall|j: int| 0 <= j < ready@.len() ==> #[trigger] ready@[j] < found@.len()) by {
            assert forall|j: int| 0 <= j < ready@.len() implies #[trigger] ready@[j]
                < found@.len() by {
                if j < at {
                    assert(ready@[j] == before[j]);
                } else {
                    assert(ready@[j] == before[j + 1]);
                }
            }
        }
        let ghost s1 = Sorting { open: ints(open@), ready: spots(ready@), out: picked };
        let ghost parents = v[k as int].1.parents;
        assert(v[k as int] == (found@[k as int].0@, found@[k as int].1@));
        let mut p: usize = 0;
        while p < found[k].1.parents.len()
            invariant
                k < found@.len(),
                v == listed(found@),
                parents == texts(found@[k as int].1.parents@),
                p <= parents.len(),
                open@.len() == found@.len(),
                forall|j: int| 0 <= j < ready@.len() ==> #[trigger] ready@[j] < found@.len(),
                (Sorting { open: ints(open@), ready: spots(ready@), out: picked }) == links_closed(
                    v,
                    s1,
                    parents.take(p as int),
                ),
            decreases parents.len() - p,
        {
            let ghost s2 = Sorting { open: ints(open@), ready: spots(ready@), out: picked };
            assert(parents.take(p + 1).drop_last() =~= parents.take(p as int));
            assert(parents.take(p + 1).last() == found@[k as int].1.parents@[p as int]@);
            if let Some(q) = find_place(found.as_slice(), found[k].1.parents[p].as_str()) {
                let n = open[q];
                assert(ints(open@)[q as int] == n);
                if n > 0 {
                    let ghost o = open@;
                    open[q] = n - 1;
                    assert(ints(open@) =~= ints(o).update(q as int, n - 1));
                    if n == 1 {
                        let ghost w = spots(ready@);
                        ready.push(q);
                        assert(spots(ready@) =~= w.push(q as int));
                    }
                }
            }
            p += 1;
        }
        assert(parents.take(p as int) =~= parents);
        out.push((copy_text(found[k].0.as_str()), found[k].1.duplicate()));
        proof {
            let was = picked;
            picked = picked.push(k as int);
            assert(picked.map_values(|k: int| v[k]) =~= was.map_values(|k: int| v[k]).push(
                v[k as int],
            ));
            assert((Sorting { open: ints(open@), ready: spots(ready@), out: picked }) == one_listed(
                v,
                s0,
            ));
        }
        fuel -= 1;
    }
    out
}

} // verus!
