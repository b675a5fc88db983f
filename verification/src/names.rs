//! Sets and lists of names.

use vstd::prelude::*;

use crate::history::Names;
use crate::order::{
    ascending, bind, keys_of, lemma_bind_ascending, lemma_lookup_bind, lemma_lookup_last, lookup, OrdMap,
};
use crate::text::{copy_text, lemma_texts_push, texts};
use crate::trees::{Entry, Files, Record, Tree};

verus! {

/// The names with the keys of an association added.
pub open spec fn with_keys<T>(s: Names, m: Seq<(Seq<char>, T)>) -> Names
    decreases m.len(),
{
    if m.len() == 0 {
        s
    } else {
        bind(with_keys(s, m.drop_last()), m.last().0, ())
    }
}

/// The names are those that were there and the keys of the map.
pub proof fn lemma_with_keys<T>(s: Names, t: Seq<(Seq<char>, T)>, path: Seq<char>)
    requires
        ascending(s),
    ensures
        ascending(with_keys(s, t)),
        lookup(with_keys(s, t), path) is Some <==> (lookup(s, path) is Some || exists|i: int|
            0 <= i < t.len() && (#[trigger] t[i]).0 == path),
    decreases t.len(),
{
    if t.len() > 0 {
        let less = t.drop_last();
        lemma_with_keys(s, less, path);
        lemma_bind_ascending(with_keys(s, less), t.last().0, ());
        lemma_lookup_bind(with_keys(s, less), t.last().0, (), path);
        if exists|i: int| 0 <= i < t.len() && (#[trigger] t[i]).0 == path {
            let i = choose|i: int| 0 <= i < t.len() && (#[trigger] t[i]).0 == path;
            if i < less.len() {
                assert(less[i].0 == path);
            }
        }
        if exists|i: int| 0 <= i < less.len() && (#[trigger] less[i]).0 == path {
            let i = choose|i: int| 0 <= i < less.len() && (#[trigger] less[i]).0 == path;
            assert(t[i].0 == path);
        }
        if t.last().0 == path {
            assert(t[t.len() - 1].0 == path);
        }
    }
}

/// Adds the keys of a map to a set of names.
pub fn add_keys<V: View>(set: &mut OrdMap<()>, map: &OrdMap<V>)
    ensures
        final(set)@ == with_keys(old(set)@, map@),
{
    let ghost all = map@;
    let mut i: usize = 0;
    while i < map.len()
        invariant
            i <= all.len(),
            all == map@,
            set@ == with_keys(old(set)@, all.take(i as int)),
        decreases all.len() - i,
    {
        assert(all.take(i + 1).drop_last() =~= all.take(i as int));
        set.insert(copy_text(map.key_at(i)), ());
        i += 1;
    }
    assert(all.take(i as int) =~= all);
}

/// The names of either of two associations.
pub open spec fn either<T, U>(a: Seq<(Seq<char>, T)>, b: Seq<(Seq<char>, U)>) -> Names {
    with_keys(with_keys(seq![], a), b)
}

/// The names of either of two maps.
pub fn keys_of_either<A: View, B: View>(a: &OrdMap<A>, b: &OrdMap<B>) -> (r: OrdMap<()>)
    ensures
        r@ == either(a@, b@),
{
    let mut set: OrdMap<()> = OrdMap::new();
    assert(set@ =~= seq![]);
    add_keys(&mut set, a);
    add_keys(&mut set, b);
    set
}

/// The names with those of a list added.
pub open spec fn with_names(s: Names, v: Seq<Seq<char>>) -> Names
    decreases v.len(),
{
    if v.len() == 0 {
        s
    } else {
        bind(with_names(s, v.drop_last()), v.last(), ())
    }
}

/// Adds the names of a list to a set.
pub fn add_names(set: &mut OrdMap<()>, v: &[String])
    ensures
        final(set)@ == with_names(old(set)@, texts(v@)),
{
    let ghost all = texts(v@);
    let mut i: usize = 0;
    while i < v.len()
        invariant
            i <= v.len(),
            all == texts(v@),
            set@ == with_names(old(set)@, all.take(i as int)),
        decreases v.len() - i,
    {
        assert(all.take(i + 1).drop_last() =~= all.take(i as int));
        assert(all.take(i + 1).last() == v@[i as int]@);
        set.insert(copy_text(v[i].as_str()), ());
        i += 1;
    }
    assert(all.take(i as int) =~= all);
}

/// The keys of a map, in order.
pub fn key_list<V: View>(map: &OrdMap<V>) -> (r: Vec<String>)
    ensures
        texts(r@) == keys_of(map@),
{
    let mut out: Vec<String> = Vec::new();
    let mut i: usize = 0;
    assert(texts(out@) =~= keys_of(map@).take(0));
    while i < map.len()
        invariant
            i <= map@.len(),
            texts(out@) == keys_of(map@).take(i as int),
        decreases map@.len() - i,
    {
        broadcast use lemma_texts_push;

        out.push(copy_text(map.key_at(i)));
        i += 1;
        assert(texts(out@) =~= keys_of(map@).take(i as int));
    }
    assert(keys_of(map@).take(i as int) =~= keys_of(map@));
    out
}

/// The names of a list that a test holds of, in order.
pub open spec fn kept(v: Seq<Seq<char>>, test: spec_fn(Seq<char>) -> bool) -> Seq<Seq<char>>
    decreases v.len(),
{
    if v.len() == 0 {
        seq![]
    } else if test(v.last()) {
        kept(v.drop_last(), test).push(v.last())
    } else {
        kept(v.drop_last(), test)
    }
}

/// Every name that passes the test is kept.
pub proof fn lemma_kept_holds(v: Seq<Seq<char>>, test: spec_fn(Seq<char>) -> bool, name: Seq<char>)
    requires
        v.contains(name),
        test(name),
    ensures
        kept(v, test).contains(name),
    decreases v.len(),
{
    let less = v.drop_last();
    let all = kept(v, test);
    if v.last() == name {
        assert(all[all.len() - 1] == name);
    } else {
        let i = choose|i: int| 0 <= i < v.len() && v[i] == name;
        assert(less[i] == name);
        lemma_kept_holds(less, test, name);
        let j = choose|j: int| 0 <= j < kept(less, test).len() && kept(less, test)[j] == name;
        assert(all[j] == name);
    }
}

/// Every name that is kept passes the test.
pub proof fn lemma_kept_passes(v: Seq<Seq<char>>, test: spec_fn(Seq<char>) -> bool, name: Seq<char>)
    requires
        kept(v, test).contains(name),
    ensures
        test(name),
        v.contains(name),
    decreases v.len(),
{
    if v.len() > 0 {
        let less = v.drop_last();
        let i = choose|i: int| 0 <= i < kept(v, test).len() && kept(v, test)[i] == name;
        if test(v.last()) && i == kept(v, test).len() - 1 {
            assert(v[v.len() - 1] == name);
        } else {
            assert(kept(less, test)[i] == name);
            lemma_kept_passes(less, test, name);
            let j = choose|j: int| 0 <= j < less.len() && less[j] == name;
            assert(v[j] == name);
        }
    }
}

/// A list with those of `more` behind it that it does not hold yet, each once.
pub open spec fn with_new(v: Seq<Seq<char>>, more: Seq<Seq<char>>) -> Seq<Seq<char>>
    decreases more.len(),
{
    if more.len() == 0 {
        v
    } else {
        let head = with_new(v, more.drop_last());
        if head.contains(more.last()) {
            head
        } else {
            head.push(more.last())
        }
    }
}

/// The list stays as it was at its start, holds all that is added and nothing else, and holds nothing
/// twice.
pub proof fn lemma_with_new(v: Seq<Seq<char>>, more: Seq<Seq<char>>)
    requires
        v.no_duplicates(),
    ensures
        with_new(v, more).no_duplicates(),
        with_new(v, more).len() >= v.len(),
        forall|i: int| 0 <= i < v.len() ==> #[trigger] with_new(v, more)[i] == v[i],
        forall|i: int| 0 <= i < more.len() ==> with_new(v, more).contains(#[trigger] more[i]),
        forall|i: int|
            0 <= i < with_new(v, more).len() ==> v.contains(#[trigger] with_new(v, more)[i]) || more.contains(
                with_new(v, more)[i],
            ),
    decreases more.len(),
{
    if more.len() == 0 {
        assert forall|i: int| 0 <= i < v.len() implies v.contains(#[trigger] v[i]) by {}
    } else {
        let less = more.drop_last();
        let head = with_new(v, less);
        let all = with_new(v, more);
        lemma_with_new(v, less);
        assert(more[more.len() - 1] == more.last());
        assert forall|i: int| 0 <= i < more.len() implies all.contains(#[trigger] more[i]) by {
            if i < less.len() {
                assert(less[i] == more[i]);
                let k = choose|k: int| 0 <= k < head.len() && head[k] == less[i];
                assert(all[k] == more[i]);
            } else if !head.contains(more.last()) {
                assert(all[head.len() as int] == more[i]);
            }
        }
        assert forall|i: int| 0 <= i < all.len() implies v.contains(#[trigger] all[i]) || more.contains(all[i]) by {
            if i < head.len() {
                assert(all[i] == head[i]);
                if less.contains(head[i]) {
                    let k = choose|k: int| 0 <= k < less.len() && less[k] == head[i];
                    assert(more[k] == head[i]);
                }
            }
        }
    }
}

/// Adding two lists one after the other is adding both at once.
pub proof fn lemma_with_new_twice(v: Seq<Seq<char>>, a: Seq<Seq<char>>, b: Seq<Seq<char>>)
    ensures
        with_new(v, a + b) == with_new(with_new(v, a), b),
    decreases b.len(),
{
    if b.len() == 0 {
        assert(a + b =~= a);
    } else {
        assert((a + b).drop_last() =~= a + b.drop_last());
        lemma_with_new_twice(v, a, b.drop_last());
    }
}

/// Names that are held already add nothing.
pub proof fn lemma_nothing_new(v: Seq<Seq<char>>, more: Seq<Seq<char>>)
    requires
        forall|i: int| 0 <= i < more.len() ==> v.contains(#[trigger] more[i]),
    ensures
        with_new(v, more) == v,
    decreases more.len(),
{
    if more.len() > 0 {
        let less = more.drop_last();
        assert forall|i: int| 0 <= i < less.len() implies v.contains(#[trigger] less[i]) by {
            assert(less[i] == more[i]);
        }
        lemma_nothing_new(v, less);
        assert(v.contains(more[more.len() - 1]));
    }
}

// ---------------------------------------------------------------------------
// Entries of trees
// ---------------------------------------------------------------------------

/// What an entry that may be missing holds.
pub open spec fn opt_record(o: Option<&Entry>) -> Option<Record> {
    match o {
        Some(e) => Some(e@),
        None => None,
    }
}

/// Whether two entries that may be missing are the same.
pub fn same_entry(a: Option<&Entry>, b: Option<&Entry>) -> (r: bool)
    ensures
        r == (opt_record(a) == opt_record(b)),
{
    match (a, b) {
        (Some(x), Some(y)) => x.same_as(y),
        (None, None) => true,
        _ => false,
    }
}

/// Whether two trees are the same.
pub fn same_tree(a: &Tree, b: &Tree) -> (r: bool)
    ensures
        r == (a@ == b@),
{
    if a.len() != b.len() {
        return false;
    }
    let mut i: usize = 0;
    while i < a.len()
        invariant
            a@.len() == b@.len(),
            i <= a@.len(),
            forall|k: int| 0 <= k < i ==> #[trigger] a@[k] == b@[k],
        decreases a@.len() - i,
    {
        if !crate::text::same(a.key_at(i), b.key_at(i)) || !a.value_at(i).same_as(b.value_at(i)) {
            assert(a@[i as int] != b@[i as int]);
            return false;
        }
        i += 1;
    }
    assert(a@ =~= b@);
    true
}

/// The part of a tree whose paths are in a set.
pub open spec fn among(t: Files, s: Names) -> Files
    decreases t.len(),
{
    if t.len() == 0 {
        seq![]
    } else {
        let head = among(t.drop_last(), s);
        if lookup(s, t.last().0) is Some {
            bind(head, t.last().0, t.last().1)
        } else {
            head
        }
    }
}

/// The part of a tree holds the paths that are in the set as the tree holds them, and no other.
pub proof fn lemma_among(t: Files, s: Names, path: Seq<char>)
    requires
        ascending(t),
    ensures
        lookup(among(t, s), path) == (if lookup(s, path) is Some {
            lookup(t, path)
        } else {
            None
        }),
    decreases t.len(),
{
    if t.len() > 0 {
        let less = t.drop_last();
        lemma_lookup_last(t, path);
        lemma_among(less, s, path);
        lemma_lookup_bind(among(less, s), t.last().0, t.last().1, path);
    }
}

/// The part of a tree whose paths are in a set.
pub fn tree_among_names(t: &Tree, s: &OrdMap<()>) -> (r: Tree)
    ensures
        r@ == among(t@, s@),
{
    let ghost all = t@;
    let mut out: Tree = OrdMap::new();
    let mut i: usize = 0;
    assert(out@ =~= seq![]);
    while i < t.len()
        invariant
            i <= all.len(),
            all == t@,
            out@ == among(all.take(i as int), s@),
        decreases all.len() - i,
    {
        assert(all.take(i + 1).drop_last() =~= all.take(i as int));
        if s.contains_key(t.key_at(i)) {
            out.insert(copy_text(t.key_at(i)), crate::order::Duplicate::duplicate(t.value_at(i)));
        }
        i += 1;
    }
    assert(all.take(i as int) =~= all);
    out
}

/// A tree with the entries of another put over its own.
pub open spec fn overlaid(t: Files, over: Files) -> Files
    decreases over.len(),
{
    if over.len() == 0 {
        t
    } else {
        bind(overlaid(t, over.drop_last()), over.last().0, over.last().1)
    }
}

/// Puts the entries of another tree over those of a tree.
pub fn overlay(t: &mut Tree, over: &Tree)
    ensures
        final(t)@ == overlaid(old(t)@, over@),
{
    let ghost all = over@;
    let mut i: usize = 0;
    while i < over.len()
        invariant
            i <= all.len(),
            all == over@,
            t@ == overlaid(old(t)@, all.take(i as int)),
        decreases all.len() - i,
    {
        assert(all.take(i + 1).drop_last() =~= all.take(i as int));
        t.insert(
            copy_text(over.key_at(i)),
            crate::order::Duplicate::duplicate(over.value_at(i)),
        );
        i += 1;
    }
    assert(all.take(i as int) =~= all);
}

} // verus!
