//! What a search prints of its inputs: every selected line once and in order, and the lines beside them.

use vstd::prelude::*;

use crate::grep::{
    context_from, context_lines, context_report, input_report, limited, line_head, only_finds, scanned, Finds,
    Manner,
};
use crate::unified::{apart, in_span, Span};

verus! {

// ---------------------------------------------------------------------------
// Selected lines
// ---------------------------------------------------------------------------

/// The places from `i` on of the lines that are selected: those in which something is found, or, turned
/// round, is not.
pub open spec fn places_from(hits: Seq<bool>, invert: bool, i: int) -> Seq<int>
    decreases hits.len() - i,
{
    if i < 0 || i >= hits.len() {
        seq![]
    } else if hits[i] != invert {
        seq![i] + places_from(hits, invert, i + 1)
    } else {
        places_from(hits, invert, i + 1)
    }
}

/// The places of the selected lines are in order, and they are all that there are.
pub proof fn lemma_places(hits: Seq<bool>, invert: bool, i: int)
    requires
        0 <= i,
    ensures
        forall|a: int, b: int|
            0 <= a < b < places_from(hits, invert, i).len() ==> #[trigger] places_from(hits, invert, i)[a]
                < #[trigger] places_from(hits, invert, i)[b],
        forall|a: int|
            0 <= a < places_from(hits, invert, i).len() ==> i <= #[trigger] places_from(hits, invert, i)[a]
                < hits.len() && hits[places_from(hits, invert, i)[a]] != invert,
        forall|k: int|
            i <= k < hits.len() && #[trigger] hits[k] != invert ==> places_from(hits, invert, i).contains(k),
    decreases hits.len() - i,
{
    if i < hits.len() {
        lemma_places(hits, invert, i + 1);
        let rest = places_from(hits, invert, i + 1);
        let all = places_from(hits, invert, i);
        if hits[i] != invert {
            assert forall|a: int| 0 <= a < all.len() implies i <= #[trigger] all[a] < hits.len() && hits[all[a]]
                != invert by {
                if a > 0 {
                    assert(all[a] == rest[a - 1]);
                }
            }
            assert forall|a: int, b: int| 0 <= a < b < all.len() implies #[trigger] all[a] < #[trigger] all[b] by {
                assert(all[b] == rest[b - 1]);
                if a > 0 {
                    assert(all[a] == rest[a - 1]);
                }
            }
            assert forall|k: int| i <= k < hits.len() && #[trigger] hits[k] != invert implies all.contains(k) by {
                if k == i {
                    assert(all[0] == k);
                } else {
                    assert(rest.contains(k));
                    let a = choose|a: int| 0 <= a < rest.len() && rest[a] == k;
                    assert(all[a + 1] == k);
                }
            }
        }
    }
}

/// The text of some lines of an input, each behind its head.
pub open spec fn lines_at(x: Manner, multi: bool, label: Seq<char>, lines: Seq<Seq<char>>, places: Seq<int>) -> Seq<char>
    decreases places.len(),
{
    if places.len() == 0 {
        seq![]
    } else {
        line_head(x, multi, label, ":"@, (places[0] + 1) as nat) + lines[places[0]] + "\n"@ + lines_at(
            x,
            multi,
            label,
            lines,
            places.drop_first(),
        )
    }
}

/// Whether a search prints the lines that it selects, as they are.
pub open spec fn prints_lines(x: Manner) -> bool {
    !x.count && !x.files_with && !x.files_without && !only_finds(x)
}

/// The first of a list, no more than a limit.
pub open spec fn up_to(v: Seq<int>, limit: Option<usize>, taken: nat) -> Seq<int> {
    match limit {
        Some(most) => if v.len() + taken <= most {
            v
        } else if most <= taken {
            seq![]
        } else {
            v.take(most - taken)
        },
        None => v,
    }
}

proof fn lemma_scanned(
    x: Manner,
    multi: bool,
    label: Seq<char>,
    lines: Seq<Seq<char>>,
    f: Finds,
    out: Seq<char>,
    n: nat,
    i: int,
)
    requires
        0 <= i,
        f.hits.len() == lines.len(),
        !x.files_with,
        x.max_count matches Some(most) ==> n < most || most == 0,
    ensures
        scanned(x, multi, label, lines, f, out, n, i).1 == n + up_to(
            places_from(f.hits, x.invert, i),
            x.max_count,
            n,
        ).len(),
        prints_lines(x) ==> scanned(x, multi, label, lines, f, out, n, i).0 == out + lines_at(
            x,
            multi,
            label,
            lines,
            up_to(places_from(f.hits, x.invert, i), x.max_count, n),
        ),
    decreases lines.len() - i,
{
    let places = places_from(f.hits, x.invert, i);
    let chosen = up_to(places, x.max_count, n);
    if i >= lines.len() || x.max_count == Some(0usize) {
        assert(chosen =~= seq![]);
        assert(out + lines_at(x, multi, label, lines, chosen) =~= out);
    } else if f.hits[i] == x.invert {
        lemma_scanned(x, multi, label, lines, f, out, n, i + 1);
    } else {
        let rest = places_from(f.hits, x.invert, i + 1);
        assert(places =~= seq![i] + rest);
        let head = line_head(x, multi, label, ":"@, (i + 1) as nat);
        let line = head + lines[i] + "\n"@;
        let more = if x.count || x.files_with || x.files_without {
            ""@
        } else if only_finds(x) {
            crate::grep::piece_lines(head, f.pieces[i])
        } else {
            line
        };
        let after = if x.max_count matches Some(limit) && n + 1 >= limit {
            Seq::<int>::empty()
        } else {
            up_to(rest, x.max_count, n + 1)
        };
        assert(chosen =~= seq![i] + after);
        assert(chosen.drop_first() =~= after);
        let all = lines_at(x, multi, label, lines, chosen);
        assert(all == line + lines_at(x, multi, label, lines, after));
        if x.max_count matches Some(limit) && n + 1 >= limit {
            assert(lines_at(x, multi, label, lines, after) =~= seq![]);
            assert(all =~= line);
        } else {
            lemma_scanned(x, multi, label, lines, f, out + more, n + 1, i + 1);
            assert(out + line + lines_at(x, multi, label, lines, after) =~= out + all);
        }
    }
}

/// What a search prints of an input: every selected line, once and in order, up to the limit; where it
/// counts, how many there are.
pub proof fn lemma_search_prints(x: Manner, multi: bool, label: Seq<char>, lines: Seq<Seq<char>>, f: Finds)
    requires
        f.hits.len() == lines.len(),
        !x.files_with,
    ensures
        ({
            let chosen = up_to(places_from(f.hits, x.invert, 0), x.max_count, 0);
            &&& scanned(x, multi, label, lines, f, ""@, 0, 0).1 == chosen.len()
            &&& prints_lines(x) ==> input_report(x, multi, label, lines, f).0 == lines_at(
                x,
                multi,
                label,
                lines,
                chosen,
            )
            &&& input_report(x, multi, label, lines, f).1 == (chosen.len() > 0)
        }),
{
    reveal_strlit("");
    lemma_scanned(x, multi, label, lines, f, ""@, 0, 0);
    let chosen = up_to(places_from(f.hits, x.invert, 0), x.max_count, 0);
    let text = lines_at(x, multi, label, lines, chosen);
    assert(""@ + text =~= text);
    assert(text + ""@ + ""@ + ""@ =~= text);
}

// ---------------------------------------------------------------------------
// Lines beside them
// ---------------------------------------------------------------------------

/// The text of runs of lines, with a line of dashes between each and the next.
pub open spec fn runs_text(
    x: Manner,
    multi: bool,
    label: Seq<char>,
    lines: Seq<Seq<char>>,
    chosen: Seq<bool>,
    v: Seq<Span>,
) -> Seq<char>
    decreases v.len(),
{
    if v.len() == 0 {
        seq![]
    } else if v.len() == 1 {
        context_lines(x, multi, label, lines, chosen, v[0].start, v[0].end)
    } else {
        runs_text(x, multi, label, lines, chosen, v.drop_last()) + "--\n"@ + context_lines(
            x,
            multi,
            label,
            lines,
            chosen,
            v.last().start,
            v.last().end,
        )
    }
}

/// Whether a line is at most so far before or behind one of the first `n` that is chosen.
pub open spec fn beside(chosen: Seq<bool>, n: int, before: int, after: int, q: int) -> bool {
    exists|i: int| 0 <= i < n && #[trigger] chosen[i] && i - before <= q <= i + after
}

proof fn lemma_lines_joined(
    x: Manner,
    multi: bool,
    label: Seq<char>,
    lines: Seq<Seq<char>>,
    chosen: Seq<bool>,
    a: int,
    b: int,
    c: int,
)
    requires
        a <= b <= c,
    ensures
        context_lines(x, multi, label, lines, chosen, a, c) == context_lines(x, multi, label, lines, chosen, a, b)
            + context_lines(x, multi, label, lines, chosen, b, c),
    decreases c - b,
{
    reveal_strlit("");
    let first = context_lines(x, multi, label, lines, chosen, a, b);
    if b < c {
        lemma_lines_joined(x, multi, label, lines, chosen, a, b, c - 1);
        let mark = if chosen[c - 1] {
            ":"@
        } else {
            "-"@
        };
        let line = line_head(x, multi, label, mark, c as nat) + lines[c - 1] + "\n"@;
        let mid = context_lines(x, multi, label, lines, chosen, b, c - 1);
        assert(first + mid + line =~= first + (mid + line));
    } else {
        assert(first + context_lines(x, multi, label, lines, chosen, b, c) =~= first);
    }
}

/// Whether runs hold exactly the lines beside the chosen ones among the first `n`.
spec fn runs_hold(chosen: Seq<bool>, n: int, before: int, after: int, len: int, v: Seq<Span>) -> bool {
    &&& apart(v, len)
    &&& v.len() > 0 ==> v.last().start <= (if n < before {
        0
    } else {
        n - before
    })
    &&& forall|q: int| 0 <= q < len ==> (#[trigger] in_span(v, q) <==> beside(chosen, n, before, after, q))
}

proof fn lemma_unchosen(chosen: Seq<bool>, n: int, before: int, after: int, len: int, v: Seq<Span>)
    requires
        0 <= n < chosen.len(),
        before >= 0,
        !chosen[n],
        runs_hold(chosen, n, before, after, len, v),
    ensures
        runs_hold(chosen, n + 1, before, after, len, v),
{
    assert forall|q: int| 0 <= q < len implies (#[trigger] in_span(v, q) <==> beside(
        chosen,
        n + 1,
        before,
        after,
        q,
    )) by {
        assert(in_span(v, q) <==> beside(chosen, n, before, after, q));
        if beside(chosen, n + 1, before, after, q) {
            let i = choose|i: int| 0 <= i < n + 1 && #[trigger] chosen[i] && i - before <= q <= i + after;
            assert(i < n);
            assert(chosen[i]);
        }
        if beside(chosen, n, before, after, q) {
            let i = choose|i: int| 0 <= i < n && #[trigger] chosen[i] && i - before <= q <= i + after;
            assert(chosen[i]);
        }
    }
}

/// The runs once another chosen line is taken up, with the lines beside it.
spec fn taken_up(v: Seq<Span>, start: int, end: int) -> Seq<Span> {
    if v.len() > 0 && start <= v.last().end {
        v.drop_last().push(
            Span {
                start: v.last().start,
                end: if end < v.last().end {
                    v.last().end
                } else {
                    end
                },
            },
        )
    } else {
        v.push(Span { start, end })
    }
}

proof fn lemma_chosen(chosen: Seq<bool>, n: int, before: int, after: int, len: int, v: Seq<Span>)
    requires
        0 <= n < chosen.len(),
        chosen.len() == len,
        before >= 0,
        after >= 0,
        chosen[n],
        runs_hold(chosen, n, before, after, len, v),
    ensures
        ({
            let start = if n < before {
                0
            } else {
                n - before
            };
            let end = if n + after + 1 < len {
                n + after + 1
            } else {
                len
            };
            runs_hold(chosen, n + 1, before, after, len, taken_up(v, start, end))
        }),
{
    let start = if n < before {
        0
    } else {
        n - before
    };
    let end = if n + after + 1 < len {
        n + after + 1
    } else {
        len
    };
    let w = taken_up(v, start, end);
    let joined = v.len() > 0 && start <= v.last().end;
    let k0 = w.len() - 1;
    assert(v.len() > 0 ==> v.last() == v[v.len() - 1]);
    assert forall|k: int| 0 <= k < k0 implies #[trigger] w[k] == v[k] by {}
    assert(apart(w, len)) by {
        assert forall|k: int| 0 <= k < w.len() implies 0 <= (#[trigger] w[k]).start < w[k].end <= len by {
            if k < k0 {
                assert(w[k] == v[k]);
            }
        }
        assert forall|k: int, j: int| 0 <= k < j < w.len() implies (#[trigger] w[k]).end < (#[trigger] w[j]).start by {
            assert(w[k] == v[k]);
            if j < k0 {
                assert(w[j] == v[j]);
            } else if joined {
                assert(v[k].end < v[v.len() - 1].start);
            } else if k < v.len() - 1 {
                assert(v[k].end < v[v.len() - 1].start);
            }
        }
    }
    assert forall|q: int| 0 <= q < len implies (#[trigger] in_span(w, q) <==> beside(
        chosen,
        n + 1,
        before,
        after,
        q,
    )) by {
        assert(in_span(v, q) <==> beside(chosen, n, before, after, q));
        if in_span(w, q) {
            let k = choose|k: int| 0 <= k < w.len() && (#[trigger] w[k]).start <= q < w[k].end;
            if k < k0 {
                assert(v[k].start <= q < v[k].end);
                assert(in_span(v, q));
            } else if start <= q < end {
                assert(chosen[n] && n - before <= q <= n + after);
            } else {
                assert(v[v.len() - 1].start <= q < v[v.len() - 1].end);
                assert(in_span(v, q));
            }
            if in_span(v, q) {
                let i = choose|i: int| 0 <= i < n && #[trigger] chosen[i] && i - before <= q <= i + after;
                assert(chosen[i]);
            }
        }
        if beside(chosen, n + 1, before, after, q) {
            let i = choose|i: int| 0 <= i < n + 1 && #[trigger] chosen[i] && i - before <= q <= i + after;
            if i == n {
                assert(w[k0].start <= q < w[k0].end);
            } else {
                assert(chosen[i]);
                assert(beside(chosen, n, before, after, q));
                let k = choose|k: int| 0 <= k < v.len() && (#[trigger] v[k]).start <= q < v[k].end;
                if k < k0 {
                    assert(w[k] == v[k]);
                } else {
                    assert(w[k0].start <= q < w[k0].end);
                }
            }
        }
    }
}

proof fn lemma_context_from(
    x: Manner,
    multi: bool,
    label: Seq<char>,
    lines: Seq<Seq<char>>,
    chosen: Seq<bool>,
    i: int,
    v: Seq<Span>,
) -> (w: Seq<Span>)
    requires
        0 <= i <= lines.len(),
        chosen.len() == lines.len(),
        runs_hold(chosen, i, x.before_context as int, x.after_context as int, lines.len() as int, v),
    ensures
        runs_hold(
            chosen,
            lines.len() as int,
            x.before_context as int,
            x.after_context as int,
            lines.len() as int,
            w,
        ),
        context_from(
            x,
            multi,
            label,
            lines,
            chosen,
            if v.len() > 0 {
                Some(v.last().end)
            } else {
                None
            },
            runs_text(x, multi, label, lines, chosen, v),
            i,
        ) == runs_text(x, multi, label, lines, chosen, w),
    decreases lines.len() - i,
{
    let before = x.before_context as int;
    let after = x.after_context as int;
    let len = lines.len() as int;
    if i >= len {
        v
    } else if !chosen[i] {
        lemma_unchosen(chosen, i, before, after, len, v);
        lemma_context_from(x, multi, label, lines, chosen, i + 1, v)
    } else {
        let start = if i < before {
            0
        } else {
            i - before
        };
        let end = if i + after + 1 < len {
            i + after + 1
        } else {
            len
        };
        lemma_chosen(chosen, i, before, after, len, v);
        let u = taken_up(v, start, end);
        let text = runs_text(x, multi, label, lines, chosen, v);
        reveal_strlit("");
        if v.len() > 0 {
            let p = v.last().end;
            assert(v.last() == v[v.len() - 1]);
            let from = v.last().start;
            if start <= p {
                if p < end {
                    lemma_lines_joined(x, multi, label, lines, chosen, from, p, end);
                    let more = context_lines(x, multi, label, lines, chosen, p, end);
                    assert(u.drop_last() =~= v.drop_last());
                    assert(u.last() == Span { start: from, end });
                    assert(text + ""@ + more =~= text + more);
                    if v.len() == 1 {
                        assert(runs_text(x, multi, label, lines, chosen, u) == text + more);
                    } else {
                        let head = runs_text(x, multi, label, lines, chosen, v.drop_last()) + "--\n"@;
                        assert(head + context_lines(x, multi, label, lines, chosen, from, p) + more =~= head + (
                        context_lines(x, multi, label, lines, chosen, from, p) + more));
                        assert(runs_text(x, multi, label, lines, chosen, u) == text + more);
                    }
                } else {
                    assert(u =~= v);
                }
            } else {
                assert(u.drop_last() =~= v);
                assert(u.last() == Span { start, end });
            }
        } else {
            let more = context_lines(x, multi, label, lines, chosen, start, end);
            assert(text + ""@ + more =~= more);
        }
        lemma_context_from(x, multi, label, lines, chosen, i + 1, u)
    }
}

/// What a search with context prints: the lines that are at most so far before or behind a selected one,
/// each once and in order, in runs with a line of dashes between them.
pub proof fn lemma_context_prints(
    x: Manner,
    multi: bool,
    label: Seq<char>,
    lines: Seq<Seq<char>>,
    hits: Seq<bool>,
) -> (v: Seq<Span>)
    requires
        hits.len() == lines.len(),
    ensures
        ({
            let chosen = limited(hits, x.invert, x.max_count, lines.len() as int);
            &&& context_report(x, multi, label, lines, hits).0 == runs_text(x, multi, label, lines, chosen, v)
            &&& apart(v, lines.len() as int)
            &&& forall|q: int|
                0 <= q < lines.len() ==> (#[trigger] in_span(v, q) <==> beside(
                    chosen,
                    lines.len() as int,
                    x.before_context as int,
                    x.after_context as int,
                    q,
                ))
        }),
{
    let chosen = limited(hits, x.invert, x.max_count, lines.len() as int);
    crate::grep::lemma_limited(hits, x.invert, x.max_count, lines.len() as int);
    let none = Seq::<Span>::empty();
    reveal_strlit("");
    assert(""@ =~= runs_text(x, multi, label, lines, chosen, none));
    lemma_context_from(x, multi, label, lines, chosen, 0, none)
}

} // verus!
