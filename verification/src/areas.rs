//! What a merge of text is made of.
//!
//! The changes of both sides fall into areas of the base with unchanged lines between them. Outside
//! the areas a merge holds the lines of the base; in an area it holds what the one side that changed
//! anything there made of it, or what both made of it alike, or a conflict.

use vstd::prelude::*;
use vstd::utf8::{encode_utf8, valid_utf8};

use crate::bytes::strict_text;
use crate::diff::{counted, lines_of, script, Op};
use crate::merging::{
    block_text, closed, collide, grown, hunk_list, least, lemma_flat_concat, lemma_grown, lemma_hunk_list,
    lemma_lines_encode, lemma_reach, lemma_rebuilt_first, merged_from, merged_lines, most, ordered, reach, rebuilt, region, taken,
    touching, walk, Area, Change,
};
use crate::text::{ends, flat, whole_lines_at};

verus! {

// ---------------------------------------------------------------------------
// Changes that do not touch
// ---------------------------------------------------------------------------

/// What a list of changes holds where it is made of the changes from `m` and from `y` on.
spec fn made_of(h: Seq<Change>, o: Seq<Change>, t: Seq<Change>, m: int, y: int) -> bool {
    &&& forall|i: int| m <= i < o.len() ==> h.contains(#[trigger] o[i])
    &&& forall|j: int| y <= j < t.len() ==> h.contains(#[trigger] t[j])
    &&& forall|k: int|
        0 <= k < h.len() ==> (exists|i: int| m <= i < o.len() && o[i] == #[trigger] h[k]) || (exists|j: int|
            y <= j < t.len() && t[j] == h[k])
}

proof fn lemma_put_in_front(h: Seq<Change>, c: Change, len: int)
    requires
        ordered(h, len),
        0 <= c.start <= c.end <= len,
        h.len() > 0 ==> c.end < h[0].start,
    ensures
        ordered(seq![c] + h, len),
        (seq![c] + h).subrange(1, (seq![c] + h).len() as int) == h,
        (seq![c] + h).contains(c),
        forall|k: int| 0 <= k < h.len() ==> (seq![c] + h).contains(#[trigger] h[k]),
{
    let g = seq![c] + h;
    assert(g.subrange(1, g.len() as int) =~= h);
    assert(g[0] == c);
    assert forall|k: int| 0 <= k < h.len() implies g.contains(#[trigger] h[k]) by {
        assert(g[k + 1] == h[k]);
    }
    assert forall|i: int| 0 <= i < g.len() implies 0 <= (#[trigger] g[i]).start <= g[i].end <= len by {
        if i > 0 {
            assert(g[i] == h[i - 1]);
        }
    }
    assert forall|i: int, j: int| 0 <= i < j < g.len() implies (#[trigger] g[i]).end < (#[trigger] g[j]).start by {
        assert(g[j] == h[j - 1]);
        if i > 0 {
            assert(g[i] == h[i - 1]);
        } else if j > 1 {
            assert(h[0].end < h[j - 1].start);
        }
    }
}

proof fn lemma_apart_from(
    base: Seq<Seq<char>>,
    o: Seq<Change>,
    t: Seq<Change>,
    m: int,
    y: int,
    position: int,
    labels: (Seq<char>, Seq<char>),
) -> (h: Seq<Change>)
    requires
        0 <= m <= o.len(),
        0 <= y <= t.len(),
        ordered(o, base.len() as int),
        ordered(t, base.len() as int),
        forall|i: int, j: int| !#[trigger] touching(o, t, i, j),
    ensures
        ordered(h, base.len() as int),
        made_of(h, o, t, m, y),
        h.len() > 0 ==> (m < o.len() && h[0] == o[m]) || (y < t.len() && h[0] == t[y]),
        merged_from(base, o, t, m, y, position, labels) == (
            flat(rebuilt(base, h, position, base.len() as int)),
            false,
        ),
    decreases o.len() - m + t.len() - y,
{
    let len = base.len() as int;
    if m >= o.len() && y >= t.len() {
        let h = Seq::<Change>::empty();
        h
    } else {
        assert(m < o.len() && y < t.len() ==> !touching(o, t, m, y));
        let ours = y >= t.len() || (m < o.len() && o[m].start <= t[y].start);
        let c = if ours {
            o[m]
        } else {
            t[y]
        };
        let rest = if ours {
            lemma_apart_from(base, o, t, m + 1, y, c.end, labels)
        } else {
            lemma_apart_from(base, o, t, m, y + 1, c.end, labels)
        };
        let h = seq![c] + rest;
        assert(rest.len() > 0 ==> c.end < rest[0].start);
        lemma_put_in_front(rest, c, len);
        lemma_rebuilt_first(base, h, position, len);
        assert(h[0] == c);
        let tail = rebuilt(base, rest, c.end, len);
        lemma_flat_concat(base.subrange(position, c.start), c.lines);
        lemma_flat_concat(base.subrange(position, c.start) + c.lines, tail);
        assert(made_of(h, o, t, m, y)) by {
            assert forall|i: int| m <= i < o.len() implies h.contains(#[trigger] o[i]) by {
                if !(ours && i == m) {
                    assert(rest.contains(o[i]));
                    let k = choose|k: int| 0 <= k < rest.len() && rest[k] == o[i];
                    assert(h.contains(rest[k]));
                }
            }
            assert forall|j: int| y <= j < t.len() implies h.contains(#[trigger] t[j]) by {
                if !(!ours && j == y) {
                    assert(rest.contains(t[j]));
                    let k = choose|k: int| 0 <= k < rest.len() && rest[k] == t[j];
                    assert(h.contains(rest[k]));
                }
            }
            assert forall|k: int| 0 <= k < h.len() implies (exists|i: int|
                m <= i < o.len() && o[i] == #[trigger] h[k]) || (exists|j: int| y <= j < t.len() && t[j] == h[k]) by {
                if k > 0 {
                    assert(h[k] == rest[k - 1]);
                }
            }
        }
        h
    }
}

/// Where no change of ours touches a change of theirs, the merge is no conflict, and it is the base
/// with every change of either side put in its place: `h` holds the changes of both sides, in the
/// order in which they stand, and nothing else.
pub proof fn lemma_apart_changes_all_made(
    base: Seq<Seq<char>>,
    ours: Seq<Seq<char>>,
    theirs: Seq<Seq<char>>,
    labels: (Seq<char>, Seq<char>),
) -> (h: Seq<Change>)
    requires
        forall|i: int, j: int|
            !#[trigger] touching(hunk_list(base, ours), hunk_list(base, theirs), i, j),
    ensures
        ordered(h, base.len() as int),
        forall|c: Change| #[trigger]
            h.contains(c) <==> hunk_list(base, ours).contains(c) || hunk_list(base, theirs).contains(c),
        merged_lines(base, ours, theirs, labels) == (flat(rebuilt(base, h, 0, base.len() as int)), false),
{
    let o = hunk_list(base, ours);
    let t = hunk_list(base, theirs);
    lemma_hunk_list(base, ours);
    lemma_hunk_list(base, theirs);
    let h = lemma_apart_from(base, o, t, 0, 0, 0, labels);
    assert forall|c: Change| #[trigger] h.contains(c) <==> o.contains(c) || t.contains(c) by {
        if h.contains(c) {
            let k = choose|k: int| 0 <= k < h.len() && h[k] == c;
            assert(h[k] == c);
        }
        if o.contains(c) {
            let i = choose|i: int| 0 <= i < o.len() && o[i] == c;
            assert(h.contains(o[i]));
        }
        if t.contains(c) {
            let j = choose|j: int| 0 <= j < t.len() && t[j] == c;
            assert(h.contains(t[j]));
        }
    }
    h
}

// ---------------------------------------------------------------------------
// Areas
// ---------------------------------------------------------------------------

/// Whether a line of the base is one that a change of ours among `m` to `m2`, or one of theirs among
/// `y` to `y2`, takes away.
pub open spec fn replaced(o: Seq<Change>, t: Seq<Change>, mine: (int, int), yours: (int, int), q: int) -> bool {
    ||| exists|i: int| mine.0 <= i < mine.1 && (#[trigger] o[i]).start <= q < o[i].end
    ||| exists|j: int| yours.0 <= j < yours.1 && (#[trigger] t[j]).start <= q < t[j].end
}

/// Whether an area holds the changes that it names, at least one, and no line of the base that both
/// sides left alone.
pub open spec fn filled(o: Seq<Change>, t: Seq<Change>, a: Area, len: int) -> bool {
    &&& 0 <= a.start <= a.end <= len
    &&& 0 <= a.mine.0 <= a.mine.1 <= o.len()
    &&& 0 <= a.yours.0 <= a.yours.1 <= t.len()
    &&& a.mine.0 < a.mine.1 || a.yours.0 < a.yours.1
    &&& forall|i: int|
        a.mine.0 <= i < a.mine.1 ==> a.start <= (#[trigger] o[i]).start && o[i].end <= a.end
    &&& forall|j: int|
        a.yours.0 <= j < a.yours.1 ==> a.start <= (#[trigger] t[j]).start && t[j].end <= a.end
    &&& forall|q: int| a.start <= q < a.end ==> #[trigger] replaced(o, t, a.mine, a.yours, q)
}

/// Whether areas hold all changes of both sides from `m` and `y` on, each in one of them, in their
/// order, with a line that both sides left alone between each area and the next.
pub open spec fn laid_out(o: Seq<Change>, t: Seq<Change>, p: Seq<Area>, m: int, y: int, len: int) -> bool
    decreases p.len(),
{
    if p.len() == 0 {
        m == o.len() && y == t.len()
    } else {
        &&& p[0].mine.0 == m
        &&& p[0].yours.0 == y
        &&& filled(o, t, p[0], len)
        &&& p.len() > 1 ==> p[0].end < p[1].start
        &&& laid_out(o, t, p.drop_first(), p[0].mine.1, p[0].yours.1, len)
    }
}

/// The lines that our side holds in an area.
pub open spec fn our_lines(base: Seq<Seq<char>>, o: Seq<Change>, a: Area) -> Seq<Seq<char>> {
    rebuilt(base, o.subrange(a.mine.0, a.mine.1), a.start, a.end)
}

/// The lines that their side holds in an area.
pub open spec fn their_lines(base: Seq<Seq<char>>, t: Seq<Change>, a: Area) -> Seq<Seq<char>> {
    rebuilt(base, t.subrange(a.yours.0, a.yours.1), a.start, a.end)
}

/// Whether both sides changed an area, and not to the same lines.
pub open spec fn clash(base: Seq<Seq<char>>, o: Seq<Change>, t: Seq<Change>, a: Area) -> bool {
    a.mine.0 < a.mine.1 && a.yours.0 < a.yours.1 && our_lines(base, o, a) != their_lines(base, t, a)
}

/// A text that ends with a line end, unless it is empty.
pub open spec fn ended(s: Seq<char>) -> Seq<char> {
    if s.len() == 0 || s.last() == '\n' {
        s
    } else {
        s.push('\n')
    }
}

/// What a merge holds in an area: where one side changed it, what that side holds; where both did to
/// the same, what both hold; and otherwise both, marked as a conflict, ours first.
pub open spec fn area_text(
    base: Seq<Seq<char>>,
    o: Seq<Change>,
    t: Seq<Change>,
    a: Area,
    labels: (Seq<char>, Seq<char>),
) -> Seq<char> {
    if clash(base, o, t, a) {
        "<<<<<<< "@ + labels.0 + "\n"@ + ended(flat(our_lines(base, o, a))) + "=======\n"@ + ended(
            flat(their_lines(base, t, a)),
        ) + ">>>>>>> "@ + labels.1 + "\n"@
    } else if a.mine.0 < a.mine.1 {
        flat(our_lines(base, o, a))
    } else {
        flat(their_lines(base, t, a))
    }
}

/// The base from `position` on, with each area holding what the merge holds there.
pub open spec fn woven(
    base: Seq<Seq<char>>,
    o: Seq<Change>,
    t: Seq<Change>,
    p: Seq<Area>,
    position: int,
    labels: (Seq<char>, Seq<char>),
) -> Seq<char>
    decreases p.len(),
{
    if p.len() == 0 {
        flat(base.subrange(position, base.len() as int))
    } else {
        flat(base.subrange(position, p[0].start)) + area_text(base, o, t, p[0], labels) + woven(
            base,
            o,
            t,
            p.drop_first(),
            p[0].end,
            labels,
        )
    }
}

proof fn lemma_ended(lines: Seq<Seq<char>>)
    ensures
        block_text(lines) == ended(flat(lines)),
{
    let s = flat(lines);
    reveal_strlit("\n");
    if s.len() > 0 {
        assert(s.subrange(s.len() - 1, s.len() as int) =~= seq![s.last()]);
        assert("\n"@ =~= seq!['\n']);
        if s.last() == '\n' {
            assert(ends(s, "\n"@));
        } else {
            assert(seq![s.last()][0] != seq!['\n'][0]);
            assert(!ends(s, "\n"@));
            assert(s + "\n"@ =~= s.push('\n'));
        }
    }
}

proof fn lemma_reach_filled(h: Seq<Change>, k: int, end: int, len: int, q: int)
    requires
        0 <= k <= h.len(),
        ordered(h, len),
        end <= q < reach(h, k, end).1,
    ensures
        exists|i: int| k <= i < reach(h, k, end).0 && (#[trigger] h[i]).start <= q < h[i].end,
    decreases h.len() - k,
{
    if k < h.len() && h[k].start <= end {
        let next = most(h[k].end, end);
        if q < h[k].end {
            lemma_reach(h, k + 1, next, most(next, len));
            assert(h[k].start <= q < h[k].end);
        } else {
            lemma_reach_filled(h, k + 1, next, len, q);
        }
    }
}

proof fn lemma_grown_filled(o: Seq<Change>, t: Seq<Change>, m: int, y: int, end: int, len: int, q: int)
    requires
        0 <= m <= o.len(),
        0 <= y <= t.len(),
        ordered(o, len),
        ordered(t, len),
        end <= len,
        end <= q < grown(o, t, m, y, end).2,
    ensures
        ({
            let (m2, y2, e2) = grown(o, t, m, y, end);
            replaced(o, t, (m, m2), (y, y2), q)
        }),
    decreases o.len() - m + t.len() - y,
{
    let (m1, e1) = reach(o, m, end);
    lemma_reach(o, m, end, len);
    let (y1, e2) = reach(t, y, e1);
    lemma_reach(t, y, e1, len);
    if !(m1 == m && y1 == y) {
        let g = grown(o, t, m1, y1, e2);
        lemma_grown(o, t, m1, y1, e2, len);
        if q < e1 {
            lemma_reach_filled(o, m, end, len, q);
            let i = choose|i: int| m <= i < m1 && (#[trigger] o[i]).start <= q < o[i].end;
            assert(m <= i < g.0 && o[i].start <= q < o[i].end);
        } else if q < e2 {
            lemma_reach_filled(t, y, e1, len, q);
            let j = choose|j: int| y <= j < y1 && (#[trigger] t[j]).start <= q < t[j].end;
            assert(y <= j < g.1 && t[j].start <= q < t[j].end);
        } else {
            lemma_grown_filled(o, t, m1, y1, e2, len, q);
            if exists|i: int| m1 <= i < g.0 && (#[trigger] o[i]).start <= q < o[i].end {
                let i = choose|i: int| m1 <= i < g.0 && (#[trigger] o[i]).start <= q < o[i].end;
                assert(m <= i < g.0 && o[i].start <= q < o[i].end);
            } else {
                let j = choose|j: int| y1 <= j < g.1 && (#[trigger] t[j]).start <= q < t[j].end;
                assert(y <= j < g.1 && t[j].start <= q < t[j].end);
            }
        }
    }
}

/// The area that two touching changes lie in holds what it should.
proof fn lemma_region_filled(
    base: Seq<Seq<char>>,
    o: Seq<Change>,
    t: Seq<Change>,
    m: int,
    y: int,
    position: int,
    labels: (Seq<char>, Seq<char>),
) -> (a: Area)
    requires
        ordered(o, base.len() as int),
        ordered(t, base.len() as int),
        touching(o, t, m, y),
    ensures
        filled(o, t, a, base.len() as int),
        a.start == o[m].start || a.start == t[y].start,
        a.mine.0 == m < a.mine.1,
        a.yours.0 == y < a.yours.1,
        a.mine.1 < o.len() ==> a.end < o[a.mine.1].start,
        a.yours.1 < t.len() ==> a.end < t[a.yours.1].start,
        ({
            let g = region(base, o, t, m, y, position, labels);
            &&& (g.mine, g.yours, g.end) == (a.mine.1, a.yours.1, a.end)
            &&& g.conflict == clash(base, o, t, a)
            &&& g.text == flat(base.subrange(position, a.start)) + area_text(base, o, t, a, labels)
        }),
{
    let len = base.len() as int;
    let start = least(o[m].start, t[y].start);
    let first = most(o[m].end, t[y].end);
    let (m2, y2, end) = grown(o, t, m + 1, y + 1, first);
    lemma_grown(o, t, m + 1, y + 1, first, len);
    let a = Area { start, end, mine: (m, m2), yours: (y, y2) };
    assert forall|i: int| m <= i < m2 implies a.start <= (#[trigger] o[i]).start && o[i].end <= a.end by {
        if i > m {
            assert(o[m].end < o[i].start);
        }
    }
    assert forall|j: int| y <= j < y2 implies a.start <= (#[trigger] t[j]).start && t[j].end <= a.end by {
        if j > y {
            assert(t[y].end < t[j].start);
        }
    }
    assert forall|q: int| a.start <= q < a.end implies #[trigger] replaced(o, t, a.mine, a.yours, q) by {
        if q < first {
            if o[m].start <= q < o[m].end {
                assert(replaced(o, t, a.mine, a.yours, q));
            } else {
                assert(t[y].start <= q < t[y].end);
            }
        } else {
            lemma_grown_filled(o, t, m + 1, y + 1, first, len, q);
            if exists|i: int| m + 1 <= i < m2 && (#[trigger] o[i]).start <= q < o[i].end {
                let i = choose|i: int| m + 1 <= i < m2 && (#[trigger] o[i]).start <= q < o[i].end;
                assert(m <= i < m2 && o[i].start <= q < o[i].end);
            } else {
                let j = choose|j: int| y + 1 <= j < y2 && (#[trigger] t[j]).start <= q < t[j].end;
                assert(y <= j < y2 && t[j].start <= q < t[j].end);
            }
        }
    }
    let ours = our_lines(base, o, a);
    let theirs = their_lines(base, t, a);
    lemma_ended(ours);
    lemma_ended(theirs);
    a
}

/// The area of a single change that touches none of the other side.
proof fn lemma_lone_filled(
    base: Seq<Seq<char>>,
    o: Seq<Change>,
    t: Seq<Change>,
    m: int,
    y: int,
    ours: bool,
    position: int,
    labels: (Seq<char>, Seq<char>),
) -> (a: Area)
    requires
        0 <= m <= o.len(),
        0 <= y <= t.len(),
        ordered(o, base.len() as int),
        ordered(t, base.len() as int),
        ours ==> m < o.len(),
        !ours ==> y < t.len(),
    ensures
        filled(o, t, a, base.len() as int),
        ({
            let c = if ours {
                o[m]
            } else {
                t[y]
            };
            &&& a.start == c.start
            &&& a.end == c.end
            &&& a.mine == (m, if ours { m + 1 } else { m })
            &&& a.yours == (y, if ours { y } else { y + 1 })
            &&& !clash(base, o, t, a)
            &&& taken(base, c, position) == flat(base.subrange(position, a.start)) + area_text(base, o, t, a, labels)
        }),
{
    let c = if ours {
        o[m]
    } else {
        t[y]
    };
    let a = Area {
        start: c.start,
        end: c.end,
        mine: (m, if ours { m + 1 } else { m }),
        yours: (y, if ours { y } else { y + 1 }),
    };
    assert forall|q: int| a.start <= q < a.end implies #[trigger] replaced(o, t, a.mine, a.yours, q) by {
        if ours {
            assert(o[m].start <= q < o[m].end);
        } else {
            assert(t[y].start <= q < t[y].end);
        }
    }
    let one = if ours {
        o.subrange(m, m + 1)
    } else {
        t.subrange(y, y + 1)
    };
    assert(one.drop_last() =~= seq![]);
    assert(one.last() == c);
    assert(rebuilt(base, seq![], c.start, c.start) =~= seq![]);
    assert(base.subrange(c.end, c.end) =~= seq![]);
    assert(rebuilt(base, one, c.start, c.end) =~= c.lines);
    a
}

proof fn lemma_areas_from(
    base: Seq<Seq<char>>,
    o: Seq<Change>,
    t: Seq<Change>,
    m: int,
    y: int,
    position: int,
    labels: (Seq<char>, Seq<char>),
) -> (p: Seq<Area>)
    requires
        0 <= m <= o.len(),
        0 <= y <= t.len(),
        ordered(o, base.len() as int),
        ordered(t, base.len() as int),
    ensures
        laid_out(o, t, p, m, y, base.len() as int),
        p.len() > 0 ==> (m < o.len() && p[0].start == o[m].start) || (y < t.len() && p[0].start == t[y].start),
        merged_from(base, o, t, m, y, position, labels) == (
            woven(base, o, t, p, position, labels),
            exists|k: int| 0 <= k < p.len() && clash(base, o, t, #[trigger] p[k]),
        ),
    decreases o.len() - m + t.len() - y,
{
    if m >= o.len() && y >= t.len() {
        Seq::<Area>::empty()
    } else {
        let both = m < o.len() && y < t.len() && collide(o[m], t[y]);
        let ours = y >= t.len() || (m < o.len() && o[m].start <= t[y].start);
        let a = if both {
            lemma_region_filled(base, o, t, m, y, position, labels)
        } else {
            lemma_lone_filled(base, o, t, m, y, ours, position, labels)
        };
        let rest = lemma_areas_from(base, o, t, a.mine.1, a.yours.1, a.end, labels);
        let p = seq![a] + rest;
        assert(p.drop_first() =~= rest);
        assert(p[0] == a);
        assert(rest.len() > 0 ==> p[1] == rest[0]);
        let left = merged_from(base, o, t, a.mine.1, a.yours.1, a.end, labels);
        let clashes = exists|k: int| 0 <= k < p.len() && clash(base, o, t, #[trigger] p[k]);
        assert(clashes == (clash(base, o, t, a) || left.1)) by {
            if left.1 {
                let k = choose|k: int| 0 <= k < rest.len() && clash(base, o, t, #[trigger] rest[k]);
                assert(p[k + 1] == rest[k]);
            }
            if clashes {
                let k = choose|k: int| 0 <= k < p.len() && clash(base, o, t, #[trigger] p[k]);
                if k > 0 {
                    assert(p[k] == rest[k - 1]);
                }
            }
        }
        if both {
            let g = region(base, o, t, m, y, position, labels);
            assert(merged_from(base, o, t, m, y, position, labels) == (g.text + left.0, g.conflict || left.1));
        }
        p
    }
}

/// What every merge is made of. The changes of both sides fall into areas with lines between them that
/// neither side changed; no such line is inside an area, and every change is in one. The merge is the
/// base with each area holding what one side made of it, or both alike, or a conflict; it is reported
/// as a conflict exactly where some area is one.
pub proof fn lemma_merge_of_areas(
    base: Seq<Seq<char>>,
    ours: Seq<Seq<char>>,
    theirs: Seq<Seq<char>>,
    labels: (Seq<char>, Seq<char>),
) -> (p: Seq<Area>)
    ensures
        ({
            let o = hunk_list(base, ours);
            let t = hunk_list(base, theirs);
            &&& laid_out(o, t, p, 0, 0, base.len() as int)
            &&& merged_lines(base, ours, theirs, labels) == (
                woven(base, o, t, p, 0, labels),
                exists|k: int| 0 <= k < p.len() && clash(base, o, t, #[trigger] p[k]),
            )
        }),
{
    lemma_hunk_list(base, ours);
    lemma_hunk_list(base, theirs);
    lemma_areas_from(base, hunk_list(base, ours), hunk_list(base, theirs), 0, 0, 0, labels)
}

// ---------------------------------------------------------------------------
// How much changes hold
// ---------------------------------------------------------------------------

/// How many lines of the base a list of changes takes away.
pub open spec fn lines_gone(h: Seq<Change>) -> int
    decreases h.len(),
{
    if h.len() == 0 {
        0
    } else {
        lines_gone(h.drop_last()) + (h.last().end - h.last().start)
    }
}

/// How many lines a list of changes puts in.
pub open spec fn lines_new(h: Seq<Change>) -> nat
    decreases h.len(),
{
    if h.len() == 0 {
        0
    } else {
        lines_new(h.drop_last()) + h.last().lines.len()
    }
}

proof fn lemma_walk_holds(edits: Seq<(Op, Seq<char>)>)
    ensures
        lines_gone(closed(walk(edits))) == counted(edits, Op::Delete),
        lines_new(closed(walk(edits))) == counted(edits, Op::Insert),
        walk(edits).open is Some ==> walk(edits).open->0.end == walk(edits).position,
    decreases edits.len(),
{
    if edits.len() > 0 {
        let before = edits.drop_last();
        lemma_walk_holds(before);
        let v = walk(before);
        let w = walk(edits);
        let h = closed(v);
        let g = closed(w);
        match v.open {
            Some(x) => {
                assert(h.drop_last() =~= v.done);
                if edits.last().0 != Op::Keep {
                    assert(g.drop_last() =~= v.done);
                }
            },
            None => {
                if edits.last().0 != Op::Keep {
                    assert(g.drop_last() =~= h);
                }
            },
        }
    }
}

/// The changes between two lists of lines take away as many lines as the edit script deletes and put
/// in as many as it inserts: a change holds no line that stays.
pub proof fn lemma_changes_hold_no_more(base: Seq<Seq<char>>, other: Seq<Seq<char>>)
    ensures
        lines_gone(hunk_list(base, other)) == counted(script(base, other), Op::Delete),
        lines_new(hunk_list(base, other)) == counted(script(base, other), Op::Insert),
{
    lemma_walk_holds(script(base, other));
}

// ---------------------------------------------------------------------------
// Lines
// ---------------------------------------------------------------------------

/// Whether a text is one line: it is not empty, and nothing in it but its last character ends a line.
pub open spec fn one_line(s: Seq<char>) -> bool {
    s.len() > 0 && forall|i: int| 0 <= i < s.len() - 1 ==> (#[trigger] s[i]) != '\n'
}

proof fn lemma_lines_at(s: Seq<char>, start: int, i: int)
    requires
        0 <= start <= i <= s.len(),
        forall|k: int| start <= k < i ==> (#[trigger] s[k]) != '\n',
    ensures
        forall|k: int|
            0 <= k < whole_lines_at(s, start, i).len() ==> one_line(#[trigger] whole_lines_at(s, start, i)[k]),
        forall|k: int|
            0 <= k < whole_lines_at(s, start, i).len() - 1 ==> (#[trigger] whole_lines_at(s, start, i)[k]).last()
                == '\n',
    decreases s.len() - i,
{
    let v = whole_lines_at(s, start, i);
    if i >= s.len() {
        if start < s.len() {
            let l = s.subrange(start, s.len() as int);
            assert forall|k: int| 0 <= k < l.len() - 1 implies (#[trigger] l[k]) != '\n' by {
                assert(l[k] == s[start + k]);
            }
            assert(v =~= seq![l]);
            assert(one_line(l));
        } else {
            assert(v =~= seq![]);
        }
    } else if s[i] == '\n' {
        let l = s.subrange(start, i + 1);
        let rest = whole_lines_at(s, i + 1, i + 1);
        lemma_lines_at(s, i + 1, i + 1);
        assert forall|k: int| 0 <= k < l.len() - 1 implies (#[trigger] l[k]) != '\n' by {
            assert(l[k] == s[start + k]);
        }
        assert(l.last() == '\n');
        assert(v =~= seq![l] + rest);
        assert(v[0] == l);
        assert(one_line(l));
        assert forall|k: int| 0 <= k < v.len() implies one_line(#[trigger] v[k]) by {
            if k > 0 {
                assert(v[k] == rest[k - 1]);
            }
        }
        assert forall|k: int| 0 <= k < v.len() - 1 implies (#[trigger] v[k]).last() == '\n' by {
            if k > 0 {
                assert(v[k] == rest[k - 1]);
            }
        }
    } else {
        lemma_lines_at(s, start, i + 1);
        assert(v == whole_lines_at(s, start, i + 1));
    }
}

/// The lines that are compared and merged: one after the other they are the text, each is one line, and
/// all but the last have a line end.
pub proof fn lemma_lines(data: Seq<u8>)
    requires
        valid_utf8(data),
    ensures
        encode_utf8(flat(lines_of(data))) == data,
        forall|k: int| 0 <= k < lines_of(data).len() ==> one_line(#[trigger] lines_of(data)[k]),
        forall|k: int| 0 <= k < lines_of(data).len() - 1 ==> (#[trigger] lines_of(data)[k]).last() == '\n',
{
    let s = strict_text(data);
    lemma_lines_at(s, 0, 0);
    lemma_lines_encode(data);
}

} // verus!
