//! What the hunks of a unified diff show: every change, with its context, and where it stands.

use vstd::prelude::*;

use crate::diff::{
    body_of, changed_positions, definition_before, definition_like, edit_line, edit_lines, held, hunk_text, hunks_from, hunks_text,
    last_in_hunk, lemma_last_in_hunk, lemma_script_turns, lemma_side_concat, range_text, script, side, Op,
};
use crate::merging::{rebuilt, Change};
use crate::numbers::decimal;
use crate::text::{ends, flat, trimmed_end};

verus! {

/// A part of an edit script, from its first entry to behind its last.
pub struct Span {
    pub start: int,
    pub end: int,
}

/// The lines of the old side that stand before an entry of a script.
pub open spec fn old_before(edits: Seq<(Op, Seq<char>)>, n: int) -> Seq<Seq<char>> {
    side(edits.subrange(0, n), Op::Insert)
}

/// The lines of the new side that stand before an entry of a script.
pub open spec fn new_before(edits: Seq<(Op, Seq<char>)>, n: int) -> Seq<Seq<char>> {
    side(edits.subrange(0, n), Op::Delete)
}

/// The old lines that a span shows.
pub open spec fn old_lines(edits: Seq<(Op, Seq<char>)>, v: Span) -> Seq<Seq<char>> {
    side(edits.subrange(v.start, v.end), Op::Insert)
}

/// The new lines that a span shows.
pub open spec fn new_lines(edits: Seq<(Op, Seq<char>)>, v: Span) -> Seq<Seq<char>> {
    side(edits.subrange(v.start, v.end), Op::Delete)
}

/// Where lines stand on their side: the number of the first, and how many there are where it is not
/// one. Of no lines, the number is that of the line before.
pub open spec fn place(before: nat, count: nat) -> Seq<char> {
    if count == 0 {
        decimal(before) + ",0"@
    } else if count == 1 {
        decimal(before + 1)
    } else {
        decimal(before + 1) + ","@ + decimal(count)
    }
}

/// The mark before a line: a space where it stays, a minus where it goes, a plus where it comes.
pub open spec fn mark_of(op: Op) -> char {
    match op {
        Op::Keep => ' ',
        Op::Delete => '-',
        Op::Insert => '+',
    }
}

/// A line behind its mark. A line without an end is ended, and that is told.
pub open spec fn marked_line(e: (Op, Seq<char>)) -> Seq<char> {
    if e.1.len() > 0 && e.1.last() == '\n' {
        seq![mark_of(e.0)] + e.1
    } else {
        seq![mark_of(e.0)] + e.1 + "\n\\ No newline at end of file\n"@
    }
}

/// The text of one hunk: where its lines stand on both sides, the definition that they are in, and
/// the lines.
pub open spec fn span_text(edits: Seq<(Op, Seq<char>)>, v: Span) -> Seq<char> {
    "@@ -"@ + place(old_before(edits, v.start).len(), old_lines(edits, v).len()) + " +"@ + place(
        new_before(edits, v.start).len(),
        new_lines(edits, v).len(),
    ) + " @@"@ + definition_before(edits, v.start) + "\n"@ + flat(
        edits.subrange(v.start, v.end).map_values(|e: (Op, Seq<char>)| marked_line(e)),
    )
}

/// The text of several hunks.
pub open spec fn spans_text(edits: Seq<(Op, Seq<char>)>, v: Seq<Span>) -> Seq<char>
    decreases v.len(),
{
    if v.len() == 0 {
        seq![]
    } else {
        span_text(edits, v[0]) + spans_text(edits, v.drop_first())
    }
}

/// Whether an entry is in one of the spans.
pub open spec fn in_span(v: Seq<Span>, q: int) -> bool {
    exists|k: int| 0 <= k < v.len() && (#[trigger] v[k]).start <= q < v[k].end
}

/// Whether an entry of a script is a change.
pub open spec fn changes_at(edits: Seq<(Op, Seq<char>)>, p: int) -> bool {
    0 <= p < edits.len() && edits[p].0 != Op::Keep
}

/// Whether some change is at most `context` entries away.
pub open spec fn near_change(edits: Seq<(Op, Seq<char>)>, q: int, context: int) -> bool {
    exists|p: int| #[trigger] changes_at(edits, p) && p - context <= q <= p + context
}

/// Whether spans lie in a script in order, with an entry between each and the next.
pub open spec fn apart(v: Seq<Span>, len: int) -> bool {
    &&& forall|k: int| 0 <= k < v.len() ==> 0 <= (#[trigger] v[k]).start < v[k].end <= len
    &&& forall|k: int, j: int| 0 <= k < j < v.len() ==> (#[trigger] v[k]).end < (#[trigger] v[j]).start
}

/// What a span does to the old lines: those that it shows give way to the new ones.
pub open spec fn span_change(edits: Seq<(Op, Seq<char>)>, v: Span) -> Change {
    let start = old_before(edits, v.start).len() as int;
    Change { start, end: start + old_lines(edits, v).len(), lines: new_lines(edits, v) }
}

/// What spans do to the old lines.
pub open spec fn span_changes(edits: Seq<(Op, Seq<char>)>, v: Seq<Span>) -> Seq<Change> {
    v.map_values(|x: Span| span_change(edits, x))
}

// ---------------------------------------------------------------------------
// The text of a hunk
// ---------------------------------------------------------------------------

proof fn lemma_held(edits: Seq<(Op, Seq<char>)>, op: Op)
    ensures
        held(edits, op) == side(edits, op).len(),
    decreases edits.len(),
{
    if edits.len() > 0 {
        lemma_held(edits.drop_last(), op);
    }
}

proof fn lemma_marked_line(e: (Op, Seq<char>))
    ensures
        edit_line(e) == marked_line(e),
{
    let l = e.1;
    reveal_strlit(" ");
    reveal_strlit("-");
    reveal_strlit("+");
    reveal_strlit("\n");
    reveal_strlit("");
    reveal_strlit("\\ No newline at end of file\n");
    reveal_strlit("\n\\ No newline at end of file\n");
    let tail = "\\ No newline at end of file\n"@;
    assert("\n"@ =~= seq!['\n']);
    assert("\n\\ No newline at end of file\n"@ =~= "\n"@ + tail);
    assert(" "@ =~= seq![' '] && "-"@ =~= seq!['-'] && "+"@ =~= seq!['+']);
    let mark = seq![mark_of(e.0)];
    if l.len() > 0 {
        assert(l.subrange(l.len() - 1, l.len() as int) =~= seq![l.last()]);
    }
    if l.len() > 0 && l.last() == '\n' {
        assert(ends(l, "\n"@));
        assert(body_of(l) == l.subrange(0, l.len() - 1));
        assert(mark + body_of(l) + "\n"@ + ""@ =~= mark + l);
    } else {
        if l.len() > 0 {
            assert(seq![l.last()][0] != seq!['\n'][0]);
        }
        assert(!ends(l, "\n"@));
        assert(!ends(l, seq!['\n']));
        assert(mark + l + "\n"@ + tail =~= mark + l + ("\n"@ + tail));
    }
}

proof fn lemma_marked_lines(edits: Seq<(Op, Seq<char>)>)
    ensures
        edit_lines(edits) == flat(edits.map_values(|e: (Op, Seq<char>)| marked_line(e))),
    decreases edits.len(),
{
    let all = edits.map_values(|e: (Op, Seq<char>)| marked_line(e));
    if edits.len() > 0 {
        lemma_marked_lines(edits.drop_last());
        lemma_marked_line(edits.last());
        assert(all.drop_last() =~= edits.drop_last().map_values(|e: (Op, Seq<char>)| marked_line(e)));
    }
}

proof fn lemma_place(before: nat, count: nat)
    ensures
        range_text(
            if count == 0 {
                before as int
            } else {
                before as int + 1
            },
            count as int,
        ) == place(before, count),
{
    if count == 0 {
        reveal_strlit(",");
        reveal_strlit(",0");
        assert(decimal(0) =~= seq!['0']);
        assert(","@ + decimal(0) =~= ",0"@);
        assert(decimal(before) + ","@ + decimal(0) =~= decimal(before) + (","@ + decimal(0)));
    }
}

proof fn lemma_span_text(edits: Seq<(Op, Seq<char>)>, v: Span)
    requires
        0 <= v.start <= v.end <= edits.len(),
    ensures
        hunk_text(edits, v.start, v.end) == span_text(edits, v),
{
    let inside = edits.subrange(v.start, v.end);
    let front = edits.subrange(0, v.start);
    lemma_held(inside, Op::Insert);
    lemma_held(inside, Op::Delete);
    lemma_held(front, Op::Insert);
    lemma_held(front, Op::Delete);
    lemma_place(held(front, Op::Insert), held(inside, Op::Insert));
    lemma_place(held(front, Op::Delete), held(inside, Op::Delete));
    lemma_marked_lines(inside);
}

/// Whether an entry of a script is a line of the old side that looks like the start of a definition.
pub open spec fn defines(edits: Seq<(Op, Seq<char>)>, k: int) -> bool {
    edits[k].0 != Op::Insert && definition_like(body_of(edits[k].1))
}

/// What a hunk says it is in: the nearest line of the old side before it that looks like the start of a
/// definition, without white space behind it. Where there is none it says nothing.
pub proof fn lemma_nearest_definition(edits: Seq<(Op, Seq<char>)>, start: int) -> (k: int)
    requires
        0 <= start <= edits.len(),
    ensures
        -1 <= k < start,
        forall|j: int| k < j < start ==> !#[trigger] defines(edits, j),
        k == -1 ==> definition_before(edits, start) == Seq::<char>::empty(),
        k >= 0 ==> defines(edits, k) && definition_before(edits, start) == seq![' '] + trimmed_end(
            body_of(edits[k].1),
        ),
    decreases start,
{
    if start == 0 {
        reveal_strlit("");
        assert(""@ =~= Seq::<char>::empty());
        -1
    } else if defines(edits, start - 1) {
        reveal_strlit(" ");
        assert(" "@ =~= seq![' ']);
        start - 1
    } else {
        let k = lemma_nearest_definition(edits, start - 1);
        assert(definition_before(edits, start) == definition_before(edits, start - 1));
        k
    }
}

// ---------------------------------------------------------------------------
// Which entries are shown
// ---------------------------------------------------------------------------

/// Whether a list holds the changes of a script, in order.
spec fn lists_changes(edits: Seq<(Op, Seq<char>)>, c: Seq<int>, n: int) -> bool {
    &&& forall|i: int| 0 <= i < c.len() ==> changes_at(edits, #[trigger] c[i]) && c[i] < n
    &&& forall|i: int, j: int| 0 <= i < j < c.len() ==> #[trigger] c[i] < #[trigger] c[j]
    &&& forall|p: int| #[trigger] changes_at(edits, p) && p < n ==> c.contains(p)
}

proof fn lemma_changed_positions(edits: Seq<(Op, Seq<char>)>, n: int)
    requires
        0 <= n <= edits.len(),
    ensures
        lists_changes(edits, changed_positions(edits, n), n),
    decreases n,
{
    let c = changed_positions(edits, n);
    if n > 0 {
        lemma_changed_positions(edits, n - 1);
        let b = changed_positions(edits, n - 1);
        assert forall|p: int| #[trigger] changes_at(edits, p) && p < n implies c.contains(p) by {
            if p < n - 1 {
                assert(b.contains(p));
                let i = choose|i: int| 0 <= i < b.len() && b[i] == p;
                assert(c[i] == p);
            } else {
                assert(c.last() == p);
            }
        }
    }
}

/// The changes of one hunk are close together, and the next is far away.
proof fn lemma_hunk_changes(c: Seq<int>, index: int, context: int, q: int)
    requires
        0 <= index < c.len(),
        context >= 0,
        forall|i: int, j: int| 0 <= i < j < c.len() ==> #[trigger] c[i] < #[trigger] c[j],
    ensures
        ({
            let last = last_in_hunk(c, index, context);
            &&& index <= last < c.len()
            &&& last + 1 < c.len() ==> c[last + 1] > c[last] + 2 * context + 1
            &&& c[index] - context <= q <= c[last] + context ==> exists|i: int|
                index <= i <= last && (#[trigger] c[i]) - context <= q <= c[i] + context
        }),
    decreases c.len() - index,
{
    lemma_last_in_hunk(c, index, context);
    let last = last_in_hunk(c, index, context);
    if index + 1 < c.len() && c[index + 1] <= c[index] + 2 * context + 1 {
        lemma_hunk_changes(c, index + 1, context, q);
        if c[index] - context <= q <= c[last] + context {
            if q <= c[index] + context {
                assert(c[index] - context <= q <= c[index] + context);
            } else {
                assert(c[index + 1] - context <= q);
            }
        }
    } else if c[index] - context <= q <= c[last] + context {
        assert(c[index] - context <= q <= c[index] + context);
    }
}

/// Whether some change from the one at `index` on is at most `context` entries away.
spec fn near_from(c: Seq<int>, index: int, context: int, q: int) -> bool {
    exists|i: int| index <= i < c.len() && (#[trigger] c[i]) - context <= q <= c[i] + context
}

proof fn lemma_spans_from(edits: Seq<(Op, Seq<char>)>, c: Seq<int>, index: int, context: int) -> (v: Seq<Span>)
    requires
        0 <= index <= c.len(),
        context >= 0,
        lists_changes(edits, c, edits.len() as int),
    ensures
        hunks_from(edits, c, index, context) == spans_text(edits, v),
        apart(v, edits.len() as int),
        v.len() > 0 ==> index < c.len() && v[0].start == (if c[index] >= context {
            c[index] - context
        } else {
            0
        }),
        forall|q: int|
            0 <= q < edits.len() ==> (#[trigger] in_span(v, q) <==> near_from(c, index, context, q)),
    decreases c.len() - index,
{
    let len = edits.len() as int;
    if index >= c.len() {
        Seq::<Span>::empty()
    } else {
        lemma_last_in_hunk(c, index, context);
        let last = last_in_hunk(c, index, context);
        let start = if c[index] >= context {
            c[index] - context
        } else {
            0
        };
        let end = if c[last] + context + 1 <= len {
            c[last] + context + 1
        } else {
            len
        };
        let a = Span { start, end };
        let rest = lemma_spans_from(edits, c, last + 1, context);
        let v = seq![a] + rest;
        assert(v.drop_first() =~= rest);
        assert(v[0] == a);
        lemma_hunk_changes(c, index, context, 0);
        assert(c[index] <= c[last]);
        lemma_span_text(edits, a);
        assert forall|k: int, j: int| 0 <= k < j < v.len() implies (#[trigger] v[k]).end < (
        #[trigger] v[j]).start by {
            assert(v[j] == rest[j - 1]);
            if k > 0 {
                assert(v[k] == rest[k - 1]);
            } else if j > 1 {
                assert(rest[0].end < rest[j - 1].start);
            }
        }
        assert forall|k: int| 0 <= k < v.len() implies 0 <= (#[trigger] v[k]).start < v[k].end <= len by {
            if k > 0 {
                assert(v[k] == rest[k - 1]);
            }
        }
        assert forall|q: int| 0 <= q < len implies (#[trigger] in_span(v, q) <==> near_from(
            c,
            index,
            context,
            q,
        )) by {
            lemma_hunk_changes(c, index, context, q);
            assert(in_span(rest, q) <==> near_from(c, last + 1, context, q));
            if in_span(v, q) {
                let k = choose|k: int| 0 <= k < v.len() && (#[trigger] v[k]).start <= q < v[k].end;
                if k == 0 {
                    let i = choose|i: int|
                        index <= i <= last && (#[trigger] c[i]) - context <= q <= c[i] + context;
                    assert(index <= i < c.len() && c[i] - context <= q <= c[i] + context);
                } else {
                    assert(v[k] == rest[k - 1]);
                    assert(in_span(rest, q));
                    let i = choose|i: int|
                        last + 1 <= i < c.len() && (#[trigger] c[i]) - context <= q <= c[i] + context;
                    assert(index <= i < c.len() && c[i] - context <= q <= c[i] + context);
                }
            }
            if near_from(c, index, context, q) {
                let i = choose|i: int|
                    index <= i < c.len() && (#[trigger] c[i]) - context <= q <= c[i] + context;
                if i <= last {
                    assert(c[index] <= c[i] <= c[last]);
                    assert(v[0].start <= q < v[0].end);
                } else {
                    assert(near_from(c, last + 1, context, q));
                    let k = choose|k: int| 0 <= k < rest.len() && (#[trigger] rest[k]).start <= q < rest[k].end;
                    assert(v[k + 1] == rest[k]);
                }
            }
        }
        v
    }
}

// ---------------------------------------------------------------------------
// What the hunks do
// ---------------------------------------------------------------------------

proof fn lemma_all_kept(edits: Seq<(Op, Seq<char>)>)
    requires
        forall|i: int| 0 <= i < edits.len() ==> (#[trigger] edits[i]).0 == Op::Keep,
    ensures
        side(edits, Op::Insert) == side(edits, Op::Delete),
    decreases edits.len(),
{
    if edits.len() > 0 {
        assert(edits[edits.len() - 1].0 == Op::Keep);
        assert forall|i: int| 0 <= i < edits.drop_last().len() implies (#[trigger] edits.drop_last()[i]).0
            == Op::Keep by {
            assert(edits.drop_last()[i] == edits[i]);
        }
        lemma_all_kept(edits.drop_last());
    }
}

proof fn lemma_side_parts(edits: Seq<(Op, Seq<char>)>, a: int, b: int, skip: Op)
    requires
        0 <= a <= b <= edits.len(),
    ensures
        side(edits.subrange(0, b), skip) == side(edits.subrange(0, a), skip) + side(edits.subrange(a, b), skip),
{
    assert(edits.subrange(0, b) =~= edits.subrange(0, a) + edits.subrange(a, b));
    lemma_side_concat(edits.subrange(0, a), edits.subrange(a, b), skip);
}

proof fn lemma_spans_applied(edits: Seq<(Op, Seq<char>)>, v: Seq<Span>, n: int)
    requires
        apart(v, n),
        0 <= n <= edits.len(),
        forall|q: int| 0 <= q < n && !#[trigger] in_span(v, q) ==> edits[q].0 == Op::Keep,
    ensures
        rebuilt(
            side(edits, Op::Insert),
            span_changes(edits, v),
            0,
            old_before(edits, n).len() as int,
        ) == new_before(edits, n),
    decreases v.len(),
{
    let a = side(edits, Op::Insert);
    let h = span_changes(edits, v);
    let len = edits.len() as int;
    lemma_side_parts(edits, n, len, Op::Insert);
    assert(edits.subrange(0, len) =~= edits);
    if v.len() == 0 {
        let part = edits.subrange(0, n);
        assert forall|i: int| 0 <= i < part.len() implies (#[trigger] part[i]).0 == Op::Keep by {
            assert(!in_span(v, i));
        }
        lemma_all_kept(part);
        assert(a.subrange(0, old_before(edits, n).len() as int) =~= old_before(edits, n));
    } else {
        let x = v.last();
        let w = v.drop_last();
        assert(x == v[v.len() - 1]);
        assert(w =~= v.subrange(0, v.len() - 1));
        assert forall|k: int| 0 <= k < w.len() implies 0 <= (#[trigger] w[k]).start < w[k].end <= x.start by {
            assert(w[k] == v[k]);
            assert(v[k].end < v[v.len() - 1].start);
        }
        assert forall|k: int, j: int| 0 <= k < j < w.len() implies (#[trigger] w[k]).end < (
        #[trigger] w[j]).start by {
            assert(w[k] == v[k] && w[j] == v[j]);
        }
        assert forall|q: int| 0 <= q < x.start && !#[trigger] in_span(w, q) implies edits[q].0 == Op::Keep by {
            assert(!in_span(v, q)) by {
                if in_span(v, q) {
                    let k = choose|k: int| 0 <= k < v.len() && (#[trigger] v[k]).start <= q < v[k].end;
                    assert(k < w.len());
                    assert(w[k] == v[k]);
                }
            }
        }
        lemma_spans_applied(edits, w, x.start);
        let tail = edits.subrange(x.end, n);
        assert forall|i: int| 0 <= i < tail.len() implies (#[trigger] tail[i]).0 == Op::Keep by {
            let q = x.end + i;
            assert(!in_span(v, q)) by {
                if in_span(v, q) {
                    let k = choose|k: int| 0 <= k < v.len() && (#[trigger] v[k]).start <= q < v[k].end;
                    if k < v.len() - 1 {
                        assert(v[k].end < v[v.len() - 1].start);
                    }
                }
            }
            assert(tail[i] == edits[q]);
        }
        lemma_all_kept(tail);
        lemma_side_parts(edits, x.start, x.end, Op::Insert);
        lemma_side_parts(edits, x.start, x.end, Op::Delete);
        lemma_side_parts(edits, x.end, n, Op::Insert);
        lemma_side_parts(edits, x.end, n, Op::Delete);
        assert(h.drop_last() =~= span_changes(edits, w));
        assert(h.last() == span_change(edits, x));
        let c = span_change(edits, x);
        assert(c.end == old_before(edits, x.end).len());
        assert(a.subrange(c.end, old_before(edits, n).len() as int) =~= side(tail, Op::Insert));
        assert(new_before(edits, n) =~= new_before(edits, x.start) + c.lines + side(tail, Op::Delete));
    }
}

/// What the hunks of a diff show. They are spans of the edit script, in order and apart; an entry is
/// in one of them exactly if some change is at most `context` entries away, so every line that goes
/// or comes is in exactly one. Each says where its lines stand on both sides and shows them behind
/// their marks. Taken together they turn the old lines into the new: putting the new lines of every
/// hunk in the place of its old ones gives `b`.
pub proof fn lemma_hunks_show_all_changes(a: Seq<Seq<char>>, b: Seq<Seq<char>>, context: int) -> (v: Seq<Span>)
    requires
        context >= 0,
    ensures
        ({
            let edits = script(a, b);
            &&& hunks_text(edits, context) == spans_text(edits, v)
            &&& apart(v, edits.len() as int)
            &&& forall|q: int|
                0 <= q < edits.len() ==> (#[trigger] in_span(v, q) <==> near_change(edits, q, context))
            &&& rebuilt(a, span_changes(edits, v), 0, a.len() as int) == b
        }),
{
    let edits = script(a, b);
    let len = edits.len() as int;
    let c = changed_positions(edits, len);
    lemma_script_turns(a, b);
    lemma_changed_positions(edits, len);
    let v = lemma_spans_from(edits, c, 0, context);
    assert forall|q: int| 0 <= q < len implies (#[trigger] in_span(v, q) <==> near_change(edits, q, context)) by {
        assert(in_span(v, q) <==> near_from(c, 0, context, q));
        if near_from(c, 0, context, q) {
            let i = choose|i: int| 0 <= i < c.len() && (#[trigger] c[i]) - context <= q <= c[i] + context;
            assert(changes_at(edits, c[i]));
        }
        if near_change(edits, q, context) {
            let p = choose|p: int| #[trigger] changes_at(edits, p) && p - context <= q <= p + context;
            assert(c.contains(p));
            let i = choose|i: int| 0 <= i < c.len() && c[i] == p;
            assert(c[i] - context <= q <= c[i] + context);
        }
    }
    assert forall|q: int| 0 <= q < len && !#[trigger] in_span(v, q) implies edits[q].0 == Op::Keep by {
        if edits[q].0 != Op::Keep {
            assert(changes_at(edits, q) && q - context <= q <= q + context);
            assert(near_change(edits, q, context));
        }
    }
    lemma_spans_applied(edits, v, len);
    assert(edits.subrange(0, len) =~= edits);
    v
}

} // verus!
