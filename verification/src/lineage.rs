//! What revisions stand for: names, abbreviated ids and earlier places of HEAD, and the marks behind them.
//! `~` goes back along first parents, `^` to one of the parents.

use vstd::prelude::*;

use crate::numbers::{decimal, is_digit, lemma_decimal_digits, lemma_unsigned_round_trip};
use crate::repo::{commit_of, git_file, head_id, head_steps, reference_of, walked_paths};
use crate::revisions::{
    back_count, base_revision, digits_end, ids_with, lemma_digits_end, mark_count, marked, marks_at, nth_ancestor,
    nth_parent, revision,
};
use crate::system::{base_name, Machine};
use crate::text::{before_suffix, starts};

verus! {

/// The first of the parents that a commit names; none where it names none or cannot be read.
pub open spec fn parent_of(m: Machine, root: Seq<char>, id: Seq<char>) -> Option<Seq<char>> {
    match commit_of(m, root, id) {
        Some(n) => if n.parents.len() > 0 {
            Some(n.parents[0])
        } else {
            None
        },
        None => None,
    }
}

/// Going back by so many first parents: none is the commit itself, one is its first parent, and going
/// back twice is going back by the sum.
pub proof fn lemma_ancestors_add(m: Machine, root: Seq<char>, id: Seq<char>, a: nat, b: nat)
    ensures
        nth_ancestor(m, root, id, 0) == Some(id),
        nth_ancestor(m, root, id, 1) == parent_of(m, root, id),
        nth_ancestor(m, root, id, a + b) == (match nth_ancestor(m, root, id, a) {
            Some(x) => nth_ancestor(m, root, x, b),
            None => None,
        }),
    decreases a,
{
    if a > 0 {
        if let Some(p) = parent_of(m, root, id) {
            lemma_ancestors_add(m, root, p, (a - 1) as nat, b);
            assert((a + b - 1) as nat == (a - 1) as nat + b);
        }
    }
    if let Some(p) = parent_of(m, root, id) {
        assert(nth_ancestor(m, root, p, 0) == Some(p));
    }
}

/// Whether a character is one of the ancestry marks.
pub open spec fn is_mark(c: char) -> bool {
    c == '~' || c == '^'
}

proof fn lemma_digits_stop(s: Seq<char>, u: Seq<char>, i: int)
    requires
        0 <= i <= s.len(),
        u.len() > 0,
        is_mark(u[0]),
    ensures
        digits_end(s + u, i) == digits_end(s, i),
    decreases s.len() - i,
{
    if i < s.len() {
        assert((s + u)[i] == s[i]);
        if is_digit(s[i]) {
            lemma_digits_stop(s, u, i + 1);
        }
    } else {
        assert((s + u)[i] == u[0]);
    }
}

proof fn lemma_digits_run(s: Seq<char>, i: int)
    requires
        0 <= i <= s.len(),
        forall|k: int| i <= k < s.len() ==> is_digit(#[trigger] s[k]),
    ensures
        digits_end(s, i) == s.len(),
    decreases s.len() - i,
{
    if i < s.len() {
        assert(is_digit(s[i]));
        lemma_digits_run(s, i + 1);
    }
}

/// Marks behind marks go on from where the first lead to.
proof fn lemma_marked_on(m: Machine, root: Seq<char>, id: Seq<char>, s: Seq<char>, u: Seq<char>, i: int)
    requires
        0 <= i <= s.len(),
        u.len() > 0,
        is_mark(u[0]),
    ensures
        marked(m, root, id, s + u, i) == (match marked(m, root, id, s, i) {
            Some(x) => marked(m, root, x, s + u, s.len() as int),
            None => None,
        }),
    decreases s.len() - i,
{
    if i < s.len() {
        let t = s + u;
        assert(t[i] == s[i]);
        lemma_digits_end(s, i + 1);
        lemma_digits_stop(s, u, i + 1);
        let end = digits_end(s, i + 1);
        assert(t.subrange(i + 1, end) =~= s.subrange(i + 1, end));
        if let Some(n) = mark_count(s.subrange(i + 1, end)) {
            let next = if s[i] == '~' {
                nth_ancestor(m, root, id, n)
            } else if s[i] == '^' {
                nth_parent(m, root, id, n)
            } else {
                None
            };
            if let Some(c) = next {
                lemma_marked_on(m, root, c, s, u, end);
            }
        }
    }
}

proof fn lemma_marks_at(s: Seq<char>, u: Seq<char>, i: int)
    requires
        0 <= i <= s.len(),
        u.len() > 0,
        is_mark(u[0]),
    ensures
        marks_at(s + u, i) == marks_at(s, i),
        i <= marks_at(s, i) <= s.len(),
    decreases s.len() - i,
{
    if i < s.len() {
        assert((s + u)[i] == s[i]);
        if !is_mark(s[i]) {
            lemma_marks_at(s, u, i + 1);
        }
    } else {
        assert((s + u)[i] == u[0]);
    }
}

/// One mark behind a revision is followed from what the revision stands for.
proof fn lemma_one_mark(m: Machine, root: Seq<char>, s: Seq<char>, mark: char, digits: Seq<char>, n: nat)
    requires
        is_mark(mark),
        forall|k: int| 0 <= k < digits.len() ==> is_digit(#[trigger] digits[k]),
        mark_count(digits) == Some(n),
    ensures
        revision(m, root, s + (seq![mark] + digits)) == (match revision(m, root, s) {
            Some(id) => if mark == '~' {
                nth_ancestor(m, root, id, n)
            } else {
                nth_parent(m, root, id, n)
            },
            None => None,
        }),
{
    let u = seq![mark] + digits;
    let t = s + u;
    let at = s.len() as int;
    lemma_marks_at(s, u, 0);
    let k = marks_at(s, 0);
    assert(t.subrange(0, k) =~= s.subrange(0, k));
    if let Some(id) = base_revision(m, root, s.subrange(0, k)) {
        lemma_marked_on(m, root, id, s, u, k);
        if let Some(x) = marked(m, root, id, s, k) {
            assert(t[at] == mark);
            assert forall|j: int| at + 1 <= j < t.len() implies is_digit(#[trigger] t[j]) by {
                assert(t[j] == digits[j - at - 1]);
            }
            lemma_digits_run(t, at + 1);
            assert(t.subrange(at + 1, t.len() as int) =~= digits);
            let next = if mark == '~' {
                nth_ancestor(m, root, x, n)
            } else {
                nth_parent(m, root, x, n)
            };
            if let Some(c) = next {
                assert(marked(m, root, c, t, t.len() as int) == Some(c));
            }
        }
    }
}

/// A revision with `~` and a count behind it.
pub open spec fn back_by(s: Seq<char>, n: nat) -> Seq<char> {
    s + (seq!['~'] + decimal(n))
}

/// A revision with `^` and a count behind it.
pub open spec fn parent_by(s: Seq<char>, n: nat) -> Seq<char> {
    s + (seq!['^'] + decimal(n))
}

/// What `REV~N` stands for. `REV~0` is `REV`, `REV~1` its first parent, and `REV~A~B` is `REV~(A+B)`.
/// `REV~` and `REV^` are `REV~1`.
pub proof fn lemma_back_along_first_parents(m: Machine, root: Seq<char>, s: Seq<char>, a: nat, b: nat)
    requires
        a + b <= usize::MAX,
    ensures
        revision(m, root, back_by(s, 0)) == revision(m, root, s),
        revision(m, root, back_by(s, 1)) == (match revision(m, root, s) {
            Some(id) => parent_of(m, root, id),
            None => None,
        }),
        revision(m, root, back_by(back_by(s, a), b)) == revision(m, root, back_by(s, a + b)),
        revision(m, root, s + seq!['~']) == revision(m, root, back_by(s, 1)),
        revision(m, root, s + seq!['^']) == revision(m, root, back_by(s, 1)),
{
    lemma_counted_mark(m, root, s, '~', 0);
    lemma_counted_mark(m, root, s, '~', 1);
    lemma_counted_mark(m, root, s, '~', a);
    lemma_counted_mark(m, root, back_by(s, a), '~', b);
    lemma_counted_mark(m, root, s, '~', a + b);
    if let Some(id) = revision(m, root, s) {
        lemma_ancestors_add(m, root, id, a, b);
    }
    let none: Seq<char> = seq![];
    assert(seq!['~'] + none =~= seq!['~']);
    assert(seq!['^'] + none =~= seq!['^']);
    lemma_one_mark(m, root, s, '~', none, 1);
    lemma_one_mark(m, root, s, '^', none, 1);
}

proof fn lemma_counted_mark(m: Machine, root: Seq<char>, s: Seq<char>, mark: char, n: nat)
    requires
        is_mark(mark),
        n <= usize::MAX,
    ensures
        revision(m, root, s + (seq![mark] + decimal(n))) == (match revision(m, root, s) {
            Some(id) => if mark == '~' {
                nth_ancestor(m, root, id, n)
            } else {
                nth_parent(m, root, id, n)
            },
            None => None,
        }),
{
    lemma_decimal_digits(n);
    lemma_unsigned_round_trip(n, usize::MAX as nat);
    lemma_one_mark(m, root, s, mark, decimal(n), n);
}

/// What `REV^N` stands for: `REV^0` is `REV`, and any other count names one of its parents, from one
/// on.
pub proof fn lemma_numbered_parent(m: Machine, root: Seq<char>, s: Seq<char>, n: nat)
    requires
        n <= usize::MAX,
    ensures
        revision(m, root, parent_by(s, 0)) == revision(m, root, s),
        n > 0 ==> revision(m, root, parent_by(s, n)) == (match revision(m, root, s) {
            Some(id) => match commit_of(m, root, id) {
                Some(c) => if n <= c.parents.len() {
                    Some(c.parents[n - 1])
                } else {
                    None
                },
                None => None,
            },
            None => None,
        }),
{
    lemma_counted_mark(m, root, s, '^', 0);
    lemma_counted_mark(m, root, s, '^', n);
}

// ---------------------------------------------------------------------------
// Names without marks
// ---------------------------------------------------------------------------

/// Whether a text is none of the forms that stand for HEAD or an earlier place of it, and has no marks.
pub open spec fn other_name(s: Seq<char>) -> bool {
    &&& s.len() > 0
    &&& forall|i: int| 0 <= i < s.len() ==> !is_mark(#[trigger] s[i])
    &&& s != "HEAD"@
    &&& s != "@"@
    &&& s != "@{-1}"@
    &&& back_count(s) is None
}

proof fn lemma_no_marks(m: Machine, root: Seq<char>, s: Seq<char>, i: int)
    requires
        0 <= i <= s.len(),
        forall|k: int| 0 <= k < s.len() ==> !is_mark(#[trigger] s[k]),
    ensures
        marks_at(s, i) == s.len(),
    decreases s.len() - i,
{
    if i < s.len() {
        assert(!is_mark(s[i]));
        lemma_no_marks(m, root, s, i + 1);
    }
}

proof fn lemma_unmarked(m: Machine, root: Seq<char>, s: Seq<char>)
    requires
        forall|k: int| 0 <= k < s.len() ==> !is_mark(#[trigger] s[k]),
    ensures
        revision(m, root, s) == base_revision(m, root, s),
{
    lemma_no_marks(m, root, s, 0);
    assert(s.subrange(0, s.len() as int) =~= s);
}

/// What a name stands for. A branch comes before a tag, and a tag before anything else of that name;
/// `HEAD` and `@` stand for the commit that HEAD stands on.
pub proof fn lemma_name_stands_for(m: Machine, root: Seq<char>, s: Seq<char>)
    ensures
        revision(m, root, "HEAD"@) == head_id(m, root),
        revision(m, root, "@"@) == head_id(m, root),
        other_name(s) && reference_of(m, root, "refs/heads/"@ + s) is Some ==> revision(m, root, s) == reference_of(
            m,
            root,
            "refs/heads/"@ + s,
        ),
        other_name(s) && reference_of(m, root, "refs/heads/"@ + s) is None && reference_of(
            m,
            root,
            "refs/tags/"@ + s,
        ) is Some ==> revision(m, root, s) == reference_of(m, root, "refs/tags/"@ + s),
{
    reveal_strlit("HEAD");
    reveal_strlit("@");
    lemma_unmarked(m, root, "HEAD"@);
    lemma_unmarked(m, root, "@"@);
    if other_name(s) {
        lemma_unmarked(m, root, s);
    }
}

/// Whether a commit is stored under an id.
pub open spec fn commit_stored_as(m: Machine, root: Seq<char>, id: Seq<char>) -> bool {
    exists|i: int|
        0 <= i < walked_paths(m, git_file(root, "commits"@)).len() && base_name(
            #[trigger] walked_paths(m, git_file(root, "commits"@))[i],
        ) == id + ".commit"@
}

proof fn lemma_ids_with(paths: Seq<Seq<char>>, prefix: Seq<char>, id: Seq<char>)
    ensures
        ids_with(paths, prefix).contains(id) <==> starts(id, prefix) && exists|i: int|
            0 <= i < paths.len() && base_name(#[trigger] paths[i]) == id + ".commit"@,
    decreases paths.len(),
{
    let out = ids_with(paths, prefix);
    if paths.len() > 0 {
        let less = paths.drop_last();
        let a = ids_with(less, prefix);
        lemma_ids_with(less, prefix, id);
        let name = base_name(paths.last());
        let end = ".commit"@;
        assert(paths[paths.len() - 1] == paths.last());
        assert(before_suffix(name, end) == Some(id) <==> name == id + end) by {
            if before_suffix(name, end) == Some(id) {
                assert(name =~= name.subrange(0, name.len() - end.len()) + name.subrange(
                    name.len() - end.len(),
                    name.len() as int,
                ));
            }
            if name == id + end {
                assert(name.subrange(name.len() - end.len(), name.len() as int) =~= end);
                assert(name.subrange(0, name.len() - end.len()) =~= id);
            }
        }
        if out.contains(id) {
            let k = choose|k: int| 0 <= k < out.len() && out[k] == id;
            if k < a.len() {
                assert(a[k] == id);
                assert(a.contains(id));
                let i = choose|i: int| 0 <= i < less.len() && base_name(#[trigger] less[i]) == id + end;
                assert(paths[i] == less[i]);
            }
        }
        if starts(id, prefix) && exists|i: int| 0 <= i < paths.len() && base_name(#[trigger] paths[i]) == id + end {
            let i = choose|i: int| 0 <= i < paths.len() && base_name(#[trigger] paths[i]) == id + end;
            if i < less.len() {
                assert(less[i] == paths[i]);
                assert(a.contains(id));
                let k = choose|k: int| 0 <= k < a.len() && a[k] == id;
                assert(out[k] == id);
            } else {
                assert(out.last() == id);
            }
        }
    }
}

/// What an abbreviated id stands for: a stored commit whose id starts with it, the only one. This is so
/// where no branch, tag or reference has that name.
pub proof fn lemma_short_id_stands_for(m: Machine, root: Seq<char>, s: Seq<char>, id: Seq<char>, other: Seq<char>)
    requires
        other_name(s),
        reference_of(m, root, "refs/heads/"@ + s) is None,
        reference_of(m, root, "refs/tags/"@ + s) is None,
        reference_of(m, root, s) is None,
        revision(m, root, s) == Some(id),
    ensures
        s.len() >= 4,
        starts(id, s),
        commit_stored_as(m, root, id),
        commit_stored_as(m, root, other) && starts(other, s) ==> other == id,
{
    lemma_unmarked(m, root, s);
    let paths = walked_paths(m, git_file(root, "commits"@));
    let ids = ids_with(paths, s);
    assert(ids.len() == 1 && ids[0] == id);
    assert(ids.contains(id));
    lemma_ids_with(paths, s, id);
    lemma_ids_with(paths, s, other);
    if commit_stored_as(m, root, other) && starts(other, s) {
        assert(ids.contains(other));
        let k = choose|k: int| 0 <= k < ids.len() && ids[k] == other;
        assert(k == 0);
    }
}

/// `HEAD@{N}` is where HEAD stood before the last so many of its moves that are noted.
pub proof fn lemma_back_in_time(m: Machine, root: Seq<char>, n: nat)
    requires
        n <= usize::MAX,
    ensures
        revision(m, root, "HEAD@{"@ + decimal(n) + "}"@) == (if n == 0 {
            head_id(m, root)
        } else if n <= head_steps(m, root).len() {
            Some(head_steps(m, root)[head_steps(m, root).len() - n].0)
        } else {
            None
        }),
{
    let s = "HEAD@{"@ + decimal(n) + "}"@;
    reveal_strlit("HEAD@{");
    reveal_strlit("HEAD");
    reveal_strlit("@");
    reveal_strlit("}");
    lemma_decimal_digits(n);
    lemma_unsigned_round_trip(n, usize::MAX as nat);
    assert forall|k: int| 0 <= k < s.len() implies !is_mark(#[trigger] s[k]) by {
        if 6 <= k < s.len() - 1 {
            assert(s[k] == decimal(n)[k - 6]);
            assert(is_digit(decimal(n)[k - 6]));
        }
    }
    lemma_unmarked(m, root, s);
    assert(s.len() > 6);
    assert(s.subrange(0, 6) =~= "HEAD@{"@);
    let rest = s.subrange(6, s.len() as int);
    assert(rest.subrange(rest.len() - 1, rest.len() as int) =~= "}"@);
    assert(rest.subrange(0, rest.len() - 1) =~= decimal(n));
    assert(back_count(s) == Some(n));
}

} // verus!
