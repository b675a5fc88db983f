//! The order of texts by code point, sorted lists, and maps kept in that order.

use vstd::prelude::*;

use crate::text::{chars_of, copy_text, same, texts};

verus! {

/// Whether `a` comes strictly before `b` in code point order.
pub open spec fn before(a: Seq<char>, b: Seq<char>) -> bool
    decreases a.len(),
{
    if b.len() == 0 {
        false
    } else if a.len() == 0 {
        true
    } else if a[0] != b[0] {
        a[0] < b[0]
    } else {
        before(a.subrange(1, a.len() as int), b.subrange(1, b.len() as int))
    }
}

/// No text comes before itself.
pub proof fn lemma_before_irreflexive(a: Seq<char>)
    ensures
        !before(a, a),
    decreases a.len(),
{
    if a.len() > 0 {
        lemma_before_irreflexive(a.subrange(1, a.len() as int));
    }
}

/// The order of texts is transitive.
pub proof fn lemma_before_transitive(a: Seq<char>, b: Seq<char>, c: Seq<char>)
    requires
        before(a, b),
        before(b, c),
    ensures
        before(a, c),
    decreases a.len(),
{
    if a.len() > 0 && a[0] == b[0] && b[0] == c[0] {
        lemma_before_transitive(
            a.subrange(1, a.len() as int),
            b.subrange(1, b.len() as int),
            c.subrange(1, c.len() as int),
        );
    }
}

/// Of two different texts one comes before the other.
pub proof fn lemma_before_total(a: Seq<char>, b: Seq<char>)
    ensures
        before(a, b) || before(b, a) || a == b,
    decreases a.len(),
{
    if a.len() == 0 || b.len() == 0 {
        if a.len() == 0 && b.len() == 0 {
            assert(a == b);
        }
    } else if a[0] == b[0] {
        let x = a.subrange(1, a.len() as int);
        let y = b.subrange(1, b.len() as int);
        lemma_before_total(x, y);
        if x == y {
            assert(a == seq![a[0]] + x);
            assert(b == seq![b[0]] + y);
        }
    }
}

/// Whether `a` comes strictly before `b`.
pub fn less(a: &str, b: &str) -> (r: bool)
    ensures
        r == before(a@, b@),
{
    let x = chars_of(a);
    let y = chars_of(b);
    let mut i: usize = 0;
    assert(a@.subrange(0, a@.len() as int) == a@);
    assert(b@.subrange(0, b@.len() as int) == b@);
    loop
        invariant
            i <= x.len(),
            i <= y.len(),
            x@ == a@,
            y@ == b@,
            before(a@, b@) == before(
                a@.subrange(i as int, a@.len() as int),
                b@.subrange(i as int, b@.len() as int),
            ),
        decreases x.len() - i,
    {
        let ghost u = a@.subrange(i as int, a@.len() as int);
        let ghost v = b@.subrange(i as int, b@.len() as int);
        if i == y.len() {
            return false;
        }
        if i == x.len() {
            return true;
        }
        assert(u[0] == x@[i as int]);
        assert(v[0] == y@[i as int]);
        if x[i] != y[i] {
            return x[i] < y[i];
        }
        assert(u.subrange(1, u.len() as int) == a@.subrange(i + 1, a@.len() as int));
        assert(v.subrange(1, v.len() as int) == b@.subrange(i + 1, b@.len() as int));
        i += 1;
    }
}

/// `v` with `s` put at its place, behind its equals.
pub open spec fn placed(v: Seq<Seq<char>>, s: Seq<char>) -> Seq<Seq<char>>
    decreases v.len(),
{
    if v.len() == 0 {
        seq![s]
    } else if before(s, v.last()) {
        placed(v.drop_last(), s).push(v.last())
    } else {
        v.push(s)
    }
}

/// The texts of `v` in order.
pub open spec fn sorted(v: Seq<Seq<char>>) -> Seq<Seq<char>>
    decreases v.len(),
{
    if v.len() == 0 {
        seq![]
    } else {
        placed(sorted(v.drop_last()), v.last())
    }
}

fn place_text(v: &mut Vec<String>, s: String)
    ensures
        texts(final(v)@) == placed(texts(old(v)@), s@),
{
    let ghost all = texts(v@);
    let mut i: usize = v.len();
    assert(all.take(all.len() as int) =~= all);
    assert(placed(all, s@) + all.subrange(all.len() as int, all.len() as int) =~= placed(all, s@));
    while i > 0 && less(s.as_str(), v[i - 1].as_str())
        invariant
            i <= v@.len(),
            all == texts(v@),
            v@ == old(v)@,
            placed(all, s@) == placed(all.take(i as int), s@) + all.subrange(
                i as int,
                all.len() as int,
            ),
        decreases i,
    {
        assert(all.take(i as int).drop_last() =~= all.take(i - 1));
        assert(all.take(i as int).last() == all[i - 1]);
        assert(placed(all.take(i - 1), s@).push(all[i - 1]) + all.subrange(
            i as int,
            all.len() as int,
        ) =~= placed(all.take(i - 1), s@) + all.subrange(i - 1, all.len() as int));
        i -= 1;
    }
    assert(i > 0 ==> all.take(i as int).last() == all[i - 1]);
    let ghost goal = placed(all, s@);
    v.insert(i, s);
    assert(texts(v@) =~= all.take(i as int).push(s@) + all.subrange(i as int, all.len() as int));
    assert(i == 0 ==> seq![s@] =~= all.take(0).push(s@));
    assert(texts(v@) =~= goal);
}

/// The texts of `v` in order.
pub fn sort_texts(v: Vec<String>) -> (r: Vec<String>)
    ensures
        texts(r@) == sorted(texts(v@)),
{
    let ghost all = texts(v@);
    let mut out: Vec<String> = Vec::new();
    let mut i: usize = 0;
    assert(texts(out@) =~= seq![]);
    while i < v.len()
        invariant
            i <= v.len(),
            all == texts(v@),
            texts(out@) == sorted(all.take(i as int)),
        decreases v.len() - i,
    {
        assert(all.take(i + 1).drop_last() =~= all.take(i as int));
        assert(all.take(i + 1).last() == v@[i as int]@);
        place_text(&mut out, copy_text(v[i].as_str()));
        i += 1;
    }
    assert(all.take(i as int) =~= all);
    out
}

// ---------------------------------------------------------------------------
// Association lists
// ---------------------------------------------------------------------------

/// The value that `m` gives to `k`.
pub open spec fn lookup<T>(m: Seq<(Seq<char>, T)>, k: Seq<char>) -> Option<T>
    decreases m.len(),
{
    if m.len() == 0 {
        None
    } else if m[0].0 == k {
        Some(m[0].1)
    } else {
        lookup(m.subrange(1, m.len() as int), k)
    }
}

/// `m` with `k` given the value `v`, at its place in the order of keys.
pub open spec fn bind<T>(m: Seq<(Seq<char>, T)>, k: Seq<char>, v: T) -> Seq<(Seq<char>, T)>
    decreases m.len(),
{
    if m.len() == 0 {
        seq![(k, v)]
    } else if m[0].0 == k {
        seq![(k, v)] + m.subrange(1, m.len() as int)
    } else if before(k, m[0].0) {
        seq![(k, v)] + m
    } else {
        seq![m[0]] + bind(m.subrange(1, m.len() as int), k, v)
    }
}

/// `m` without the first entry of `k`.
pub open spec fn unbind<T>(m: Seq<(Seq<char>, T)>, k: Seq<char>) -> Seq<(Seq<char>, T)>
    decreases m.len(),
{
    if m.len() == 0 {
        m
    } else if m[0].0 == k {
        m.subrange(1, m.len() as int)
    } else {
        seq![m[0]] + unbind(m.subrange(1, m.len() as int), k)
    }
}

/// Whether the keys of `m` ascend strictly, so that none occurs twice.
pub open spec fn ascending<T>(m: Seq<(Seq<char>, T)>) -> bool {
    forall|i: int, j: int| 0 <= i < j < m.len() ==> before(#[trigger] m[i].0, #[trigger] m[j].0)
}

/// The keys of `m`.
pub open spec fn keys_of<T>(m: Seq<(Seq<char>, T)>) -> Seq<Seq<char>> {
    m.map_values(|e: (Seq<char>, T)| e.0)
}

/// Every key of `bind(m, k, v)` is `k` or a key of `m`.
pub proof fn lemma_bind_keys<T>(m: Seq<(Seq<char>, T)>, k: Seq<char>, v: T, i: int)
    requires
        0 <= i < bind(m, k, v).len(),
    ensures
        bind(m, k, v)[i] == (k, v) || exists|j: int| 0 <= j < m.len() && bind(m, k, v)[i] == m[j],
    decreases m.len(),
{
    if m.len() > 0 {
        let rest = m.subrange(1, m.len() as int);
        if m[0].0 == k {
            if i > 0 {
                assert(bind(m, k, v)[i] == m[i]);
            }
        } else if before(k, m[0].0) {
            if i > 0 {
                assert(bind(m, k, v)[i] == m[i - 1]);
            }
        } else if i > 0 {
            lemma_bind_keys(rest, k, v, i - 1);
            assert(bind(m, k, v)[i] == bind(rest, k, v)[i - 1]);
            if bind(rest, k, v)[i - 1] != (k, v) {
                let j = choose|j: int| 0 <= j < rest.len() && bind(rest, k, v)[i - 1] == rest[j];
                assert(m[j + 1] == rest[j]);
            }
        } else {
            assert(bind(m, k, v)[0] == m[0]);
        }
    }
}

/// Binding a key keeps the keys ascending.
pub proof fn lemma_bind_ascending<T>(m: Seq<(Seq<char>, T)>, k: Seq<char>, v: T)
    requires
        ascending(m),
    ensures
        ascending(bind(m, k, v)),
    decreases m.len(),
{
    let b = bind(m, k, v);
    if m.len() > 0 {
        let rest = m.subrange(1, m.len() as int);
        if m[0].0 == k {
            assert forall|i: int, j: int| 0 <= i < j < b.len() implies before(
                #[trigger] b[i].0,
                #[trigger] b[j].0,
            ) by {
                assert(b[i].0 == m[i].0);
                assert(b[j].0 == m[j].0);
            }
        } else if before(k, m[0].0) {
            assert forall|i: int, j: int| 0 <= i < j < b.len() implies before(
                #[trigger] b[i].0,
                #[trigger] b[j].0,
            ) by {
                assert(b[j].0 == m[j - 1].0);
                if i == 0 {
                    if j > 1 {
                        lemma_before_transitive(k, m[0].0, m[j - 1].0);
                    }
                } else {
                    assert(b[i].0 == m[i - 1].0);
                }
            }
        } else {
            lemma_before_total(k, m[0].0);
            assert forall|i: int, j: int| 0 <= i < j < rest.len() implies before(
                #[trigger] rest[i].0,
                #[trigger] rest[j].0,
            ) by {
                assert(rest[i] == m[i + 1]);
                assert(rest[j] == m[j + 1]);
            }
            lemma_bind_ascending(rest, k, v);
            let c = bind(rest, k, v);
            assert forall|i: int, j: int| 0 <= i < j < b.len() implies before(
                #[trigger] b[i].0,
                #[trigger] b[j].0,
            ) by {
                assert(b[j] == c[j - 1]);
                if i == 0 {
                    lemma_bind_keys(rest, k, v, j - 1);
                    if c[j - 1] != (k, v) {
                        let n = choose|n: int| 0 <= n < rest.len() && c[j - 1] == rest[n];
                        assert(rest[n] == m[n + 1]);
                    }
                } else {
                    assert(b[i] == c[i - 1]);
                }
            }
        }
    }
}

/// After binding `k`, looking it up gives the value, and every other key keeps its own.
pub proof fn lemma_lookup_bind<T>(m: Seq<(Seq<char>, T)>, k: Seq<char>, v: T, other: Seq<char>)
    ensures
        lookup(bind(m, k, v), other) == (if other == k { Some(v) } else { lookup(m, other) }),
    decreases m.len(),
{
    let b = bind(m, k, v);
    if m.len() > 0 {
        let rest = m.subrange(1, m.len() as int);
        assert(b.len() > 0);
        if m[0].0 == k {
            assert(b.subrange(1, b.len() as int) == rest);
        } else if before(k, m[0].0) {
            assert(b.subrange(1, b.len() as int) == m);
        } else {
            lemma_lookup_bind(rest, k, v, other);
            assert(b.subrange(1, b.len() as int) == bind(rest, k, v));
        }
    } else {
        assert(b.subrange(1, b.len() as int) == m);
    }
}

/// Binding a key that comes after all the others appends it.
pub proof fn lemma_bind_last<T>(m: Seq<(Seq<char>, T)>, k: Seq<char>, v: T)
    requires
        forall|i: int| 0 <= i < m.len() ==> before(#[trigger] m[i].0, k),
    ensures
        bind(m, k, v) == m.push((k, v)),
    decreases m.len(),
{
    if m.len() > 0 {
        let rest = m.subrange(1, m.len() as int);
        assert(before(m[0].0, k));
        lemma_before_irreflexive(k);
        if before(k, m[0].0) {
            lemma_before_transitive(m[0].0, k, m[0].0);
            lemma_before_irreflexive(m[0].0);
        }
        assert forall|i: int| 0 <= i < rest.len() implies before(#[trigger] rest[i].0, k) by {
            assert(rest[i] == m[i + 1]);
        }
        lemma_bind_last(rest, k, v);
        assert(seq![m[0]] + rest.push((k, v)) =~= m.push((k, v)));
    } else {
        assert(seq![(k, v)] =~= m.push((k, v)));
    }
}

/// Values of which a second one can be made.
pub trait Duplicate: View + Sized {
    /// The same value once more.
    fn duplicate(&self) -> (r: Self)
        ensures
            r@ == self@,
    ;
}

impl Duplicate for String {
    fn duplicate(&self) -> (r: Self) {
        copy_text(self.as_str())
    }
}

impl<V: Duplicate> Duplicate for OrdMap<V> {
    fn duplicate(&self) -> (r: Self) {
        let mut entries: Vec<(String, V)> = Vec::new();
        let mut i: usize = 0;
        while i < self.entries.len()
            invariant
                i <= self.entries.len(),
                entries@.len() == i,
                forall|k: int|
                    0 <= k < i ==> #[trigger] entries@[k].0@ == self.entries@[k].0@
                        && entries@[k].1@ == self.entries@[k].1@,
            decreases self.entries.len() - i,
        {
            let key = copy_text(self.entries[i].0.as_str());
            let value = self.entries[i].1.duplicate();
            entries.push((key, value));
            i += 1;
        }
        let r = OrdMap { entries };
        assert(r@ =~= self@);
        r
    }
}

/// A map from texts to values, kept in the order of its keys.
#[derive(Debug, PartialEq)]
pub struct OrdMap<V> {
    entries: Vec<(String, V)>,
}

impl<V: View> View for OrdMap<V> {
    type V = Seq<(Seq<char>, V::V)>;

    closed spec fn view(&self) -> Seq<(Seq<char>, V::V)> {
        self.entries@.map_values(|e: (String, V)| (e.0@, e.1@))
    }
}

impl<V: View> OrdMap<V> {
    /// The empty map.
    pub fn new() -> (r: Self)
        ensures
            r@ == Seq::<(Seq<char>, V::V)>::empty(),
    {
        let r = OrdMap { entries: Vec::new() };
        assert(r@ == Seq::<(Seq<char>, V::V)>::empty());
        r
    }

    /// The number of keys.
    pub fn len(&self) -> (r: usize)
        ensures
            r == self@.len(),
    {
        self.entries.len()
    }

    /// Whether there is no key.
    pub fn is_empty(&self) -> (r: bool)
        ensures
            r == (self@.len() == 0),
    {
        self.entries.len() == 0
    }

    /// The `i`th key in order.
    pub fn key_at(&self, i: usize) -> (r: &str)
        requires
            i < self@.len(),
        ensures
            r@ == self@[i as int].0,
    {
        self.entries[i].0.as_str()
    }

    /// The value of the `i`th key in order.
    pub fn value_at(&self, i: usize) -> (r: &V)
        requires
            i < self@.len(),
        ensures
            r@ == self@[i as int].1,
    {
        &self.entries[i].1
    }

    /// The value of `k`.
    pub fn get(&self, k: &str) -> (r: Option<&V>)
        ensures
            match r {
                Some(v) => lookup(self@, k@) == Some(v@),
                None => lookup(self@, k@) is None,
            },
    {
        let mut i: usize = 0;
        assert(self@.subrange(0, self@.len() as int) == self@);
        while i < self.entries.len()
            invariant
                i <= self.entries.len(),
                self@.len() == self.entries.len(),
                lookup(self@, k@) == lookup(self@.subrange(i as int, self@.len() as int), k@),
            decreases self.entries.len() - i,
        {
            let ghost rest = self@.subrange(i as int, self@.len() as int);
            assert(rest[0] == (self.entries@[i as int].0@, self.entries@[i as int].1@));
            if same(self.entries[i].0.as_str(), k) {
                return Some(&self.entries[i].1);
            }
            assert(rest.subrange(1, rest.len() as int) == self@.subrange(
                i + 1,
                self@.len() as int,
            ));
            i += 1;
        }
        None
    }

    /// Whether `k` has a value.
    pub fn contains_key(&self, k: &str) -> (r: bool)
        ensures
            r == (lookup(self@, k@) is Some),
    {
        match self.get(k) {
            Some(_) => true,
            None => false,
        }
    }

    /// Gives `k` the value `v`.
    pub fn insert(&mut self, k: String, v: V)
        ensures
            final(self)@ == bind(old(self)@, k@, v@),
    {
        let ghost m = self@;
        let mut i: usize = 0;
        assert(m.subrange(0, m.len() as int) == m);
        assert(m.take(0) + bind(m, k@, v@) == bind(m, k@, v@));
        while i < self.entries.len()
            invariant
                self@ == m,
                m == old(self)@,
                i <= self.entries.len(),
                m.len() == self.entries.len(),
                bind(m, k@, v@) == m.take(i as int) + bind(
                    m.subrange(i as int, m.len() as int),
                    k@,
                    v@,
                ),
            decreases self.entries.len() - i,
        {
            let ghost rest = m.subrange(i as int, m.len() as int);
            assert(rest[0] == (self.entries@[i as int].0@, self.entries@[i as int].1@));
            if same(self.entries[i].0.as_str(), k.as_str()) {
                let ghost done = bind(m, k@, v@);
                self.entries[i] = (k, v);
                assert(rest.subrange(1, rest.len() as int) == m.subrange(
                    i + 1,
                    m.len() as int,
                ));
                assert(self@ =~= done);
                return ;
            }
            if less(k.as_str(), self.entries[i].0.as_str()) {
                let ghost done = bind(m, k@, v@);
                self.entries.insert(i, (k, v));
                assert(self@ =~= done);
                return ;
            }
            assert(rest.subrange(1, rest.len() as int) == m.subrange(i + 1, m.len() as int));
            assert(m.take(i + 1) + bind(m.subrange(i + 1, m.len() as int), k@, v@) =~= m.take(
                i as int,
            ) + (seq![rest[0]] + bind(m.subrange(i + 1, m.len() as int), k@, v@)));
            i += 1;
        }
        let ghost done = bind(m, k@, v@);
        assert(m.subrange(i as int, m.len() as int).len() == 0);
        self.entries.push((k, v));
        assert(self@ =~= done);
    }

    /// Removes `k`.
    pub fn remove(&mut self, k: &str)
        ensures
            final(self)@ == unbind(old(self)@, k@),
    {
        let ghost m = self@;
        let mut i: usize = 0;
        assert(m.subrange(0, m.len() as int) == m);
        assert(m.take(0) + unbind(m, k@) == unbind(m, k@));
        while i < self.entries.len()
            invariant
                self@ == m,
                m == old(self)@,
                i <= self.entries.len(),
                m.len() == self.entries.len(),
                unbind(m, k@) == m.take(i as int) + unbind(
                    m.subrange(i as int, m.len() as int),
                    k@,
                ),
            decreases self.entries.len() - i,
        {
            let ghost rest = m.subrange(i as int, m.len() as int);
            assert(rest[0] == (self.entries@[i as int].0@, self.entries@[i as int].1@));
            if same(self.entries[i].0.as_str(), k) {
                let ghost done = unbind(m, k@);
                let _ = self.entries.remove(i);
                assert(rest.subrange(1, rest.len() as int) == m.subrange(
                    i + 1,
                    m.len() as int,
                ));
                assert(self@ =~= done);
                return ;
            }
            assert(rest.subrange(1, rest.len() as int) == m.subrange(i + 1, m.len() as int));
            assert(m.take(i + 1) + unbind(m.subrange(i + 1, m.len() as int), k@) =~= m.take(
                i as int,
            ) + (seq![rest[0]] + unbind(m.subrange(i + 1, m.len() as int), k@)));
            i += 1;
        }
        assert(m.subrange(i as int, m.len() as int) =~= seq![]);
        assert(m.take(i as int) =~= m);
        assert(unbind(m.subrange(i as int, m.len() as int), k@) =~= seq![]);
    }
}

/// A key that stands nowhere is not found.
pub proof fn lemma_lookup_none<T>(m: Seq<(Seq<char>, T)>, k: Seq<char>)
    requires
        forall|i: int| 0 <= i < m.len() ==> (#[trigger] m[i]).0 != k,
    ensures
        lookup(m, k) is None,
    decreases m.len(),
{
    if m.len() > 0 {
        let rest = m.subrange(1, m.len() as int);
        assert forall|i: int| 0 <= i < rest.len() implies (#[trigger] rest[i]).0 != k by {
            assert(rest[i] == m[i + 1]);
        }
        lemma_lookup_none(rest, k);
    }
}

/// A key that stands somewhere is found there, where the keys ascend.
pub proof fn lemma_lookup_at<T>(m: Seq<(Seq<char>, T)>, i: int)
    requires
        ascending(m),
        0 <= i < m.len(),
    ensures
        lookup(m, m[i].0) == Some(m[i].1),
    decreases m.len(),
{
    if i > 0 {
        lemma_before_irreflexive(m[i].0);
        assert(before(m[0].0, m[i].0));
        let rest = m.subrange(1, m.len() as int);
        assert(rest[i - 1] == m[i]);
        assert forall|a: int, b: int| 0 <= a < b < rest.len() implies before(
            #[trigger] rest[a].0,
            #[trigger] rest[b].0,
        ) by {
            assert(rest[a] == m[a + 1] && rest[b] == m[b + 1]);
        }
        lemma_lookup_at(rest, i - 1);
    }
}

/// A key that is found stands somewhere.
pub proof fn lemma_lookup_place<T>(m: Seq<(Seq<char>, T)>, k: Seq<char>) -> (i: int)
    requires
        lookup(m, k) is Some,
    ensures
        0 <= i < m.len(),
        m[i].0 == k,
        lookup(m, k) == Some(m[i].1),
    decreases m.len(),
{
    if m[0].0 == k {
        0
    } else {
        let rest = m.subrange(1, m.len() as int);
        let i = lemma_lookup_place(rest, k);
        assert(rest[i] == m[i + 1]);
        i + 1
    }
}

/// Without its last entry, a map holds the same for every other key.
pub proof fn lemma_lookup_last<T>(m: Seq<(Seq<char>, T)>, k: Seq<char>)
    requires
        ascending(m),
        m.len() > 0,
    ensures
        lookup(m, k) == (if m.last().0 == k {
            Some(m.last().1)
        } else {
            lookup(m.drop_last(), k)
        }),
        ascending(m.drop_last()),
{
    let head = m.drop_last();
    assert forall|a: int, b: int| 0 <= a < b < head.len() implies before(
        #[trigger] head[a].0,
        #[trigger] head[b].0,
    ) by {
        assert(head[a] == m[a] && head[b] == m[b]);
    }
    if m.last().0 == k {
        lemma_lookup_at(m, m.len() - 1);
    } else if lookup(head, k) is Some {
        let i = lemma_lookup_place(head, k);
        assert(head[i] == m[i]);
        lemma_lookup_at(m, i);
    } else if lookup(m, k) is Some {
        let i = lemma_lookup_place(m, k);
        assert(head[i] == m[i]);
        lemma_lookup_at(head, i);
    }
}

/// What a map holds once a key is taken out.
pub proof fn lemma_lookup_unbind<T>(m: Seq<(Seq<char>, T)>, k: Seq<char>, other: Seq<char>)
    requires
        ascending(m),
    ensures
        lookup(unbind(m, k), other) == (if other == k {
            None
        } else {
            lookup(m, other)
        }),
    decreases m.len(),
{
    if m.len() > 0 {
        let rest = m.subrange(1, m.len() as int);
        assert forall|a: int, b: int| 0 <= a < b < rest.len() implies before(
            #[trigger] rest[a].0,
            #[trigger] rest[b].0,
        ) by {
            assert(rest[a] == m[a + 1] && rest[b] == m[b + 1]);
        }
        if m[0].0 == k {
            if other == k {
                assert forall|i: int| 0 <= i < rest.len() implies (#[trigger] rest[i]).0 != k by {
                    assert(rest[i] == m[i + 1]);
                    assert(before(m[0].0, m[i + 1].0));
                    lemma_before_irreflexive(k);
                }
                lemma_lookup_none(rest, k);
            }
        } else {
            lemma_lookup_unbind(rest, k, other);
            let after = unbind(m, k);
            assert(after.subrange(1, after.len() as int) =~= unbind(rest, k));
        }
    }
}

/// Giving a key another value leaves the number of entries as it was.
pub proof fn lemma_bind_again<T>(m: Seq<(Seq<char>, T)>, k: Seq<char>, v: T)
    requires
        ascending(m),
        lookup(m, k) is Some,
    ensures
        bind(m, k, v).len() == m.len(),
    decreases m.len(),
{
    if m[0].0 != k {
        let rest = m.subrange(1, m.len() as int);
        assert forall|a: int, b: int| 0 <= a < b < rest.len() implies before(
            #[trigger] rest[a].0,
            #[trigger] rest[b].0,
        ) by {
            assert(rest[a] == m[a + 1] && rest[b] == m[b + 1]);
        }
        if before(k, m[0].0) {
            let i = lemma_lookup_place(rest, k);
            assert(rest[i] == m[i + 1]);
            assert(before(m[0].0, m[i + 1].0));
            lemma_before_transitive(k, m[0].0, k);
            lemma_before_irreflexive(k);
        } else {
            lemma_bind_again(rest, k, v);
        }
    }
}

/// Different names that are all keys of a map are no more than its entries.
pub proof fn lemma_no_more_than_keys<T>(m: Seq<(Seq<char>, T)>, v: Seq<Seq<char>>)
    requires
        v.no_duplicates(),
        forall|i: int| 0 <= i < v.len() ==> lookup(m, #[trigger] v[i]) is Some,
    ensures
        v.len() <= m.len(),
{
    let keys = keys_of(m);
    assert(v.to_set().subset_of(keys.to_set())) by {
        assert forall|x: Seq<char>| v.to_set().contains(x) implies keys.to_set().contains(x) by {
            let i = choose|i: int| 0 <= i < v.len() && v[i] == x;
            assert(lookup(m, v[i]) is Some);
            let k = lemma_lookup_place(m, x);
            assert(keys[k] == x);
        }
    }
    v.unique_seq_to_set();
    keys.lemma_cardinality_of_set();
    vstd::seq_lib::seq_to_set_is_finite(keys);
    vstd::set_lib::lemma_len_subset(v.to_set(), keys.to_set());
}

/// Taking a key out leaves every other key as it was, whatever the order.
pub proof fn lemma_other_key_stays<T>(m: Seq<(Seq<char>, T)>, k: Seq<char>, other: Seq<char>)
    requires
        other != k,
    ensures
        lookup(unbind(m, k), other) == lookup(m, other),
    decreases m.len(),
{
    if m.len() > 0 && m[0].0 != k {
        let rest = m.subrange(1, m.len() as int);
        lemma_other_key_stays(rest, k, other);
        let after = unbind(m, k);
        assert(after.subrange(1, after.len() as int) =~= unbind(rest, k));
    }
}

/// Taking a key out keeps the keys ascending.
pub proof fn lemma_unbind_ascending<T>(m: Seq<(Seq<char>, T)>, k: Seq<char>)
    requires
        ascending(m),
    ensures
        ascending(unbind(m, k)),
        forall|i: int|
            0 <= i < unbind(m, k).len() ==> exists|j: int|
                0 <= j < m.len() && #[trigger] m[j] == #[trigger] unbind(m, k)[i],
    decreases m.len(),
{
    if m.len() > 0 {
        let rest = m.subrange(1, m.len() as int);
        assert forall|a: int, b: int| 0 <= a < b < rest.len() implies before(
            #[trigger] rest[a].0,
            #[trigger] rest[b].0,
        ) by {
            assert(rest[a] == m[a + 1] && rest[b] == m[b + 1]);
        }
        let after = unbind(m, k);
        if m[0].0 == k {
            assert forall|i: int| 0 <= i < after.len() implies exists|j: int|
                0 <= j < m.len() && #[trigger] m[j] == #[trigger] after[i] by {
                assert(after[i] == m[i + 1]);
            }
        } else {
            lemma_unbind_ascending(rest, k);
            let less = unbind(rest, k);
            assert forall|i: int| 0 <= i < after.len() implies exists|j: int|
                0 <= j < m.len() && #[trigger] m[j] == #[trigger] after[i] by {
                if i == 0 {
                    assert(after[0] == m[0]);
                } else {
                    assert(after[i] == less[i - 1]);
                    let j = choose|j: int|
                        0 <= j < rest.len() && #[trigger] rest[j] == less[i - 1];
                    assert(rest[j] == m[j + 1]);
                }
            }
            assert forall|a: int, b: int| 0 <= a < b < after.len() implies before(
                #[trigger] after[a].0,
                #[trigger] after[b].0,
            ) by {
                assert(after[b] == less[b - 1]);
                if a == 0 {
                    let j = choose|j: int|
                        0 <= j < rest.len() && #[trigger] rest[j] == less[b - 1];
                    assert(rest[j] == m[j + 1]);
                    assert(before(m[0].0, m[j + 1].0));
                } else {
                    assert(after[a] == less[a - 1]);
                }
            }
        }
    }
}

} // verus!
