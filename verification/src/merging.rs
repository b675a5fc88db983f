//! Three-way merging of text.
//!
//! Each side's changes against the base are collected as hunks: regions of the base with the lines
//! that replace them. Regions that only one side changed are taken from that side; regions that
//! both changed, or changed with no unchanged line between them, are written once where the results
//! agree and as a conflict where they do not.

use vstd::prelude::*;
use vstd::slice::slice_subrange;
use vstd::utf8::{decode_utf8_encode_utf8, encode_utf8, valid_utf8};

use crate::bytes::{bytes_of, strict_text};
use crate::diff::{
    edit_script, lemma_script_of_same, lemma_script_turns, lines_of, script, script_of, side, split_lines, tagged,
    Op,
};
use crate::text::{
    copy_text, ends, ends_with, flat, join3, lemma_texts_push, same, texts, whole_lines_at,
};

verus! {

/// One region of the base and the lines that a side puts in its place.
pub struct Hunk {
    pub start: usize,
    pub end: usize,
    pub lines: Vec<String>,
}

/// What a hunk holds.
#[verifier::ext_equal]
pub struct Change {
    pub start: int,
    pub end: int,
    pub lines: Seq<Seq<char>>,
}

impl View for Hunk {
    type V = Change;

    open spec fn view(&self) -> Change {
        Change { start: self.start as int, end: self.end as int, lines: texts(self.lines@) }
    }
}

/// What a list of hunks holds.
pub open spec fn changes(v: Seq<Hunk>) -> Seq<Change> {
    v.map_values(|h: Hunk| h@)
}

/// The state of a walk along an edit script: the finished hunks, the one under way, and how many
/// lines of the base lie behind.
pub struct Walk {
    pub done: Seq<Change>,
    pub open: Option<Change>,
    pub position: int,
}

/// The finished hunks of a walk, the one under way among them.
pub open spec fn closed(w: Walk) -> Seq<Change> {
    match w.open {
        Some(h) => w.done.push(h),
        None => w.done,
    }
}

/// The hunk under way, or a new one at the current position.
pub open spec fn under_way(w: Walk) -> Change {
    match w.open {
        Some(h) => h,
        None => Change { start: w.position, end: w.position, lines: seq![] },
    }
}

/// One step of the walk.
pub open spec fn walk_step(w: Walk, e: (Op, Seq<char>)) -> Walk {
    match e.0 {
        Op::Keep => Walk { done: closed(w), open: None, position: w.position + 1 },
        Op::Delete => Walk {
            done: w.done,
            open: Some(
                Change {
                    start: under_way(w).start,
                    end: w.position + 1,
                    lines: under_way(w).lines,
                },
            ),
            position: w.position + 1,
        },
        Op::Insert => Walk {
            done: w.done,
            open: Some(
                Change {
                    start: under_way(w).start,
                    end: under_way(w).end,
                    lines: under_way(w).lines.push(e.1),
                },
            ),
            position: w.position,
        },
    }
}

/// The walk along a whole script.
pub open spec fn walk(edits: Seq<(Op, Seq<char>)>) -> Walk
    decreases edits.len(),
{
    if edits.len() == 0 {
        Walk { done: seq![], open: None, position: 0 }
    } else {
        walk_step(walk(edits.drop_last()), edits.last())
    }
}

/// The regions of `base` that `other` replaced, in order.
pub open spec fn hunk_list(base: Seq<Seq<char>>, other: Seq<Seq<char>>) -> Seq<Change> {
    closed(walk(script(base, other)))
}

/// Whether hunks lie in a base of `len` lines, with a line that stays between each and the next.
pub open spec fn ordered(h: Seq<Change>, len: int) -> bool {
    &&& forall|i: int|
        0 <= i < h.len() ==> 0 <= (#[trigger] h[i]).start <= h[i].end <= len
    &&& forall|i: int, j: int|
        0 <= i < j < h.len() ==> (#[trigger] h[i]).end < (#[trigger] h[j]).start
}

/// `base[start..end]` with the regions of `h` replaced.
pub open spec fn rebuilt(base: Seq<Seq<char>>, h: Seq<Change>, start: int, end: int) -> Seq<
    Seq<char>,
>
    decreases h.len(),
{
    if h.len() == 0 {
        base.subrange(start, end)
    } else {
        rebuilt(base, h.drop_last(), start, h.last().start) + h.last().lines + base.subrange(
            h.last().end,
            end,
        )
    }
}

/// What a walk has behind it: the hunks are in order, and replacing them in the part of the base
/// that lies behind gives the lines of the other side so far.
proof fn lemma_walk(edits: Seq<(Op, Seq<char>)>, base: Seq<Seq<char>>)
    requires
        side(edits, Op::Insert).len() <= base.len(),
        side(edits, Op::Insert) == base.take(side(edits, Op::Insert).len() as int),
    ensures
        ({
            let w = walk(edits);
            &&& w.position == side(edits, Op::Insert).len()
            &&& ordered(closed(w), w.position)
            &&& w.open is Some ==> w.open->0.end == w.position
            &&& w.open is None ==> forall|i: int|
                0 <= i < w.done.len() ==> (#[trigger] w.done[i]).end < w.position
            &&& rebuilt(base, closed(w), 0, w.position) == side(edits, Op::Delete)
        }),
    decreases edits.len(),
{
    let w = walk(edits);
    if edits.len() == 0 {
        assert(base.subrange(0, 0) =~= seq![]);
    } else {
        let before = edits.drop_last();
        let e = edits.last();
        let v = walk(before);
        let n = side(before, Op::Insert).len() as int;
        assert(side(before, Op::Insert) =~= base.take(n)) by {
            if e.0 != Op::Insert {
                assert(side(edits, Op::Insert).drop_last() =~= side(before, Op::Insert));
                assert(base.take(n + 1).drop_last() =~= base.take(n));
            }
        }
        lemma_walk(before, base);
        let h = closed(v);
        match e.0 {
            Op::Keep => {
                assert(side(edits, Op::Insert).last() == e.1);
                assert(base.take(n + 1).last() == base[n]);
                assert(e.1 == base[n]);
                if h.len() == 0 {
                    assert(base.subrange(0, n + 1) =~= base.subrange(0, n).push(base[n]));
                } else {
                    assert(base.subrange(h.last().end, n + 1) =~= base.subrange(
                        h.last().end,
                        n,
                    ).push(base[n]));
                    assert(rebuilt(base, h, 0, n + 1) =~= rebuilt(base, h, 0, n).push(base[n]));
                }
            },
            Op::Delete => {
                let g = closed(w);
                match v.open {
                    Some(o) => {
                        assert(h.drop_last() =~= v.done);
                        assert(g.drop_last() =~= v.done);
                        assert(g.last().start == o.start);
                        assert(base.subrange(n, n) =~= seq![]);
                        assert(base.subrange(n + 1, n + 1) =~= seq![]);
                        assert forall|i: int| 0 <= i < g.len() implies 0 <= (
                        #[trigger] g[i]).start <= g[i].end <= n + 1 by {
                            if i < v.done.len() {
                                assert(g[i] == h[i]);
                            } else {
                                assert(h[i] == o);
                            }
                        }
                        assert forall|i: int, j: int| 0 <= i < j < g.len() implies (
                        #[trigger] g[i]).end < (#[trigger] g[j]).start by {
                            assert(g[i] == h[i]);
                            assert(g[j].start == h[j].start);
                        }
                    },
                    None => {
                        assert(g.drop_last() =~= h);
                        assert(base.subrange(n + 1, n + 1) =~= seq![]);
                        assert(rebuilt(base, h, 0, n) + seq![] + seq![] =~= rebuilt(base, h, 0, n));
                        assert forall|i: int| 0 <= i < g.len() implies 0 <= (
                        #[trigger] g[i]).start <= g[i].end <= n + 1 by {
                            if i < h.len() {
                                assert(g[i] == h[i]);
                            }
                        }
                        assert forall|i: int, j: int| 0 <= i < j < g.len() implies (
                        #[trigger] g[i]).end < (#[trigger] g[j]).start by {
                            assert(g[i] == h[i]);
                            if j < h.len() {
                                assert(g[j] == h[j]);
                            }
                        }
                    },
                }
                assert(side(edits, Op::Delete) == side(before, Op::Delete));
            },
            Op::Insert => {
                let g = closed(w);
                assert(base.subrange(n, n) =~= seq![]);
                match v.open {
                    Some(o) => {
                        assert(h.drop_last() =~= v.done);
                        assert(g.drop_last() =~= v.done);
                        let head = rebuilt(base, v.done, 0, o.start);
                        assert((head + o.lines + seq![]).push(e.1) =~= head + o.lines.push(e.1)
                            + seq![]);
                        assert forall|i: int| 0 <= i < g.len() implies 0 <= (
                        #[trigger] g[i]).start <= g[i].end <= n by {
                            if i < v.done.len() {
                                assert(g[i] == h[i]);
                            } else {
                                assert(h[i] == o);
                            }
                        }
                        assert forall|i: int, j: int| 0 <= i < j < g.len() implies (
                        #[trigger] g[i]).end < (#[trigger] g[j]).start by {
                            assert(g[i] == h[i]);
                            assert(g[j].start == h[j].start);
                        }
                    },
                    None => {
                        assert(g.drop_last() =~= h);
                        let head = rebuilt(base, h, 0, n);
                        assert(head + seq![].push(e.1) + seq![] =~= head.push(e.1));
                        assert forall|i: int| 0 <= i < g.len() implies 0 <= (
                        #[trigger] g[i]).start <= g[i].end <= n by {
                            if i < h.len() {
                                assert(g[i] == h[i]);
                            }
                        }
                        assert forall|i: int, j: int| 0 <= i < j < g.len() implies (
                        #[trigger] g[i]).end < (#[trigger] g[j]).start by {
                            assert(g[i] == h[i]);
                            if j < h.len() {
                                assert(g[j] == h[j]);
                            }
                        }
                    },
                }
            },
        }
    }
}

/// The hunks between `base` and `other` lie in order in `base`, and replacing them gives `other`.
pub proof fn lemma_hunk_list(base: Seq<Seq<char>>, other: Seq<Seq<char>>)
    ensures
        ordered(hunk_list(base, other), base.len() as int),
        rebuilt(base, hunk_list(base, other), 0, base.len() as int) == other,
{
    lemma_script_turns(base, other);
    assert(base.take(base.len() as int) =~= base);
    lemma_walk(script(base, other), base);
}

/// The regions of `base` that `other` replaced, in order.
pub fn hunks(base: &[String], other: &[String]) -> (r: Vec<Hunk>)
    ensures
        changes(r@) == hunk_list(texts(base@), texts(other@)),
{
    let edits = edit_script(base, other);
    let ghost all = script_of(edits@);
    proof {
        lemma_script_turns(texts(base@), texts(other@));
    }
    let mut out: Vec<Hunk> = Vec::new();
    let mut current: Option<Hunk> = None;
    let mut position: usize = 0;
    let mut i: usize = 0;
    assert(changes(out@) == Seq::<Change>::empty());
    while i < edits.len()
        invariant
            i <= edits.len(),
            all == script_of(edits@),
            position <= i,
            changes(out@) == walk(all.take(i as int)).done,
            walk(all.take(i as int)).open == (match current {
                Some(h) => Some(h@),
                None => None,
            }),
            walk(all.take(i as int)).position == position,
        decreases edits.len() - i,
    {
        broadcast use lemma_texts_push;

        let ghost w = walk(all.take(i as int));
        assert(all.take(i + 1).drop_last() == all.take(i as int));
        assert(all.take(i + 1).last() == edits@[i as int]@);
        match edits[i].op {
            Op::Keep => {
                let ghost was = out@;
                if let Some(h) = current {
                    out.push(h);
                    assert(changes(out@) == changes(was).push(h@));
                }
                current = None;
                position += 1;
            },
            Op::Delete => {
                let h = match current {
                    Some(h) => Hunk { start: h.start, end: position + 1, lines: h.lines },
                    None => Hunk { start: position, end: position + 1, lines: Vec::new() },
                };
                assert(h@.lines =~= under_way(w).lines);
                current = Some(h);
                position += 1;
            },
            Op::Insert => {
                let mut h = match current {
                    Some(h) => h,
                    None => Hunk { start: position, end: position, lines: Vec::new() },
                };
                assert(h@.lines =~= under_way(w).lines);
                h.lines.push(copy_text(edits[i].text.as_str()));
                current = Some(h);
            },
        }
        i += 1;
    }
    assert(all.take(i as int) == all);
    let ghost was = out@;
    if let Some(h) = current {
        out.push(h);
        assert(changes(out@) == changes(was).push(h@));
    }
    out
}

/// Appends `lines[from..to]`.
fn push_lines(out: &mut Vec<String>, lines: &[String], from: usize, to: usize)
    requires
        from <= to <= lines@.len(),
    ensures
        texts(final(out)@) == texts(old(out)@) + texts(lines@).subrange(from as int, to as int),
{
    let ghost was = texts(out@);
    let ghost all = texts(lines@).subrange(from as int, to as int);
    let mut i: usize = from;
    assert(was + all.take(0) == was);
    while i < to
        invariant
            from <= i <= to <= lines@.len(),
            all == texts(lines@).subrange(from as int, to as int),
            texts(out@) == was + all.take(i - from),
        decreases to - i,
    {
        broadcast use lemma_texts_push;

        out.push(copy_text(lines[i].as_str()));
        assert((was + all.take(i - from)).push(lines@[i as int]@) == was + all.take(i + 1 - from));
        i += 1;
    }
    assert(all.take(to - from) == all);
}

/// Applies `h` to `base[start..end]`, giving one side's view of that region.
pub fn rebuild(base: &[String], h: &[Hunk], start: usize, end: usize) -> (r: Vec<String>)
    requires
        start <= end <= base@.len(),
        ordered(changes(h@), end as int),
        h@.len() > 0 ==> start <= h@[0].start,
    ensures
        texts(r@) == rebuilt(texts(base@), changes(h@), start as int, end as int),
{
    let ghost b = texts(base@);
    let ghost c = changes(h@);
    let mut out: Vec<String> = Vec::new();
    let mut position: usize = start;
    let mut i: usize = 0;
    assert(texts(out@) =~= rebuilt(b, c.take(0), start as int, start as int)) by {
        assert(c.take(0).len() == 0);
        assert(b.subrange(start as int, start as int) =~= seq![]);
    }
    while i < h.len()
        invariant
            i <= h.len(),
            start <= position <= end <= base@.len(),
            b == texts(base@),
            c == changes(h@),
            ordered(c, end as int),
            h@.len() > 0 ==> start <= h@[0].start,
            i == 0 ==> position == start,
            i > 0 ==> position == c[i - 1].end,
            texts(out@) == rebuilt(b, c.take(i as int), start as int, position as int),
        decreases h.len() - i,
    {
        assert(c[i as int] == h@[i as int]@);
        if i > 0 {
            assert(c[i - 1].end <= c[i as int].start);
        }
        let ghost was = texts(out@);
        let from: usize = h[i].start;
        push_lines(&mut out, base, position, from);
        assert(texts(out@) =~= rebuilt(b, c.take(i as int), start as int, from as int)) by {
            if i > 0 {
                let k = c.take(i as int);
                assert(k.last() == c[i - 1]);
                assert(b.subrange(k.last().end, k.last().end) =~= seq![]);
                assert(b.subrange(k.last().end, from as int) == b.subrange(
                    position as int,
                    from as int,
                ));
            } else {
                assert(c.take(0).len() == 0);
                assert(b.subrange(start as int, start as int) =~= seq![]);
            }
        }
        push_lines(&mut out, h[i].lines.as_slice(), 0, h[i].lines.len());
        assert(texts(h@[i as int].lines@).subrange(0, h@[i as int].lines@.len() as int)
            =~= c[i as int].lines);
        position = h[i].end;
        assert(c.take(i + 1).drop_last() =~= c.take(i as int));
        assert(c.take(i + 1).last() == c[i as int]);
        assert(b.subrange(position as int, position as int) =~= seq![]);
        assert(texts(out@) =~= rebuilt(b, c.take(i + 1), start as int, position as int));
        i += 1;
    }
    let ghost was = texts(out@);
    push_lines(&mut out, base, position, end);
    assert(c.take(i as int) =~= c);
    assert(texts(out@) =~= rebuilt(b, c, start as int, end as int)) by {
        if c.len() > 0 {
            assert(b.subrange(c.last().end, c.last().end) =~= seq![]);
        } else {
            assert(b.subrange(start as int, start as int) =~= seq![]);
        }
    }
    out
}

// ---------------------------------------------------------------------------
// Merging
// ---------------------------------------------------------------------------

/// Whether two replaced regions collide, so that neither side's change can simply be taken: no line
/// that both sides left alone lies between them.
pub open spec fn collide(l: Change, r: Change) -> bool {
    l.start <= r.end && r.start <= l.end
}

/// Whether two replaced regions collide.
pub fn overlap(left: &Hunk, right: &Hunk) -> (r: bool)
    ensures
        r == collide(left@, right@),
{
    left.start <= right.end && right.start <= left.end
}

/// How far the hunks from `k` on reach into a region that ends at `end`, or up to it: the first hunk
/// beyond it, and where the region then ends.
pub open spec fn reach(h: Seq<Change>, k: int, end: int) -> (int, int)
    decreases h.len() - k,
{
    if 0 <= k < h.len() && h[k].start <= end {
        reach(
            h,
            k + 1,
            if h[k].end > end {
                h[k].end
            } else {
                end
            },
        )
    } else {
        (k, end)
    }
}

/// Reaching never goes back, and stops at a hunk that begins after the end.
pub proof fn lemma_reach(h: Seq<Change>, k: int, end: int, len: int)
    requires
        0 <= k <= h.len(),
        ordered(h, len),
        end <= len,
    ensures
        k <= reach(h, k, end).0 <= h.len(),
        end <= reach(h, k, end).1 <= len,
        reach(h, k, end).0 < h.len() ==> h[reach(h, k, end).0].start > reach(h, k, end).1,
        forall|i: int| k <= i < reach(h, k, end).0 ==> (#[trigger] h[i]).end <= reach(h, k, end).1,
        reach(h, k, end).0 == k ==> reach(h, k, end).1 == end,
    decreases h.len() - k,
{
    if k < h.len() && h[k].start <= end {
        let next = if h[k].end > end {
            h[k].end
        } else {
            end
        };
        lemma_reach(h, k + 1, next, len);
    }
}

/// The region that grows from `end` until neither side reaches further: the first hunks of both
/// sides beyond it, and where it ends.
pub open spec fn grown(o: Seq<Change>, t: Seq<Change>, m: int, y: int, end: int) -> (int, int, int)
    decreases o.len() - m + t.len() - y,
    when 0 <= m <= o.len() && 0 <= y <= t.len()
{
    let (m2, e2) = reach(o, m, end);
    let (y2, e3) = reach(t, y, e2);
    if m2 == m && y2 == y {
        (m, y, end)
    } else if m <= m2 <= o.len() && y <= y2 <= t.len() {
        grown(o, t, m2, y2, e3)
    } else {
        (m, y, end)
    }
}

/// The grown region holds every hunk before its bounds, and both sides go on after it.
pub proof fn lemma_grown(o: Seq<Change>, t: Seq<Change>, m: int, y: int, end: int, len: int)
    requires
        0 <= m <= o.len(),
        0 <= y <= t.len(),
        ordered(o, len),
        ordered(t, len),
        end <= len,
    ensures
        ({
            let (m2, y2, e2) = grown(o, t, m, y, end);
            &&& m <= m2 <= o.len()
            &&& y <= y2 <= t.len()
            &&& end <= e2 <= len
            &&& m2 < o.len() ==> o[m2].start > e2
            &&& y2 < t.len() ==> t[y2].start > e2
            &&& forall|i: int| m <= i < m2 ==> (#[trigger] o[i]).end <= e2
            &&& forall|i: int| y <= i < y2 ==> (#[trigger] t[i]).end <= e2
        }),
    decreases o.len() - m + t.len() - y,
{
    let (m2, e2) = reach(o, m, end);
    lemma_reach(o, m, end, len);
    let (y2, e3) = reach(t, y, e2);
    lemma_reach(t, y, e2, len);
    if !(m2 == m && y2 == y) {
        lemma_grown(o, t, m2, y2, e3, len);
    }
}

/// One side of a conflict, with a line end behind its last line.
pub open spec fn block_text(lines: Seq<Seq<char>>) -> Seq<char> {
    let t = flat(lines);
    if t.len() > 0 && !ends(t, "\n"@) {
        t + "\n"@
    } else {
        t
    }
}

/// A conflict between the two sides of a region.
pub open spec fn conflict_text(
    ours: Seq<Seq<char>>,
    theirs: Seq<Seq<char>>,
    ours_label: Seq<char>,
    theirs_label: Seq<char>,
) -> Seq<char> {
    "<<<<<<< "@ + ours_label + "\n"@ + block_text(ours) + "=======\n"@ + block_text(theirs)
        + ">>>>>>> "@ + theirs_label + "\n"@
}

/// The smaller of two positions.
pub open spec fn least(a: int, b: int) -> int {
    if a <= b {
        a
    } else {
        b
    }
}

/// The larger of two positions.
pub open spec fn most(a: int, b: int) -> int {
    if a >= b {
        a
    } else {
        b
    }
}

/// What a region that both sides changed comes to: its text with what stands before it, whether it
/// is a conflict, and where both sides go on.
pub struct Region {
    pub text: Seq<char>,
    pub conflict: bool,
    pub mine: int,
    pub yours: int,
    pub end: int,
}

/// The region that the colliding hunks `m` of ours and `y` of theirs lie in.
pub open spec fn region(
    base: Seq<Seq<char>>,
    o: Seq<Change>,
    t: Seq<Change>,
    m: int,
    y: int,
    position: int,
    labels: (Seq<char>, Seq<char>),
) -> Region {
    let start = least(o[m].start, t[y].start);
    let (m2, y2, end) = grown(o, t, m + 1, y + 1, most(o[m].end, t[y].end));
    let ours = rebuilt(base, o.subrange(m, m2), start, end);
    let theirs = rebuilt(base, t.subrange(y, y2), start, end);
    let head = flat(base.subrange(position, start));
    Region {
        text: if ours == theirs {
            head + flat(ours)
        } else {
            head + conflict_text(ours, theirs, labels.0, labels.1)
        },
        conflict: ours != theirs,
        mine: m2,
        yours: y2,
        end,
    }
}

/// What the hunk `c` that collides with nothing comes to, with what stands before it.
pub open spec fn taken(base: Seq<Seq<char>>, c: Change, position: int) -> Seq<char> {
    flat(base.subrange(position, c.start)) + flat(c.lines)
}

/// The merge from the hunks `m` of ours and `y` of theirs on, with `base[..position]` behind: its
/// text, and whether it holds a conflict.
pub open spec fn merged_from(
    base: Seq<Seq<char>>,
    o: Seq<Change>,
    t: Seq<Change>,
    m: int,
    y: int,
    position: int,
    labels: (Seq<char>, Seq<char>),
) -> (Seq<char>, bool)
    decreases o.len() - m + t.len() - y,
    when 0 <= m <= o.len() && 0 <= y <= t.len()
{
    if m >= o.len() && y >= t.len() {
        (flat(base.subrange(position, base.len() as int)), false)
    } else if m < o.len() && y < t.len() && collide(o[m], t[y]) {
        let g = region(base, o, t, m, y, position, labels);
        if m < g.mine <= o.len() && y < g.yours <= t.len() {
            let rest = merged_from(base, o, t, g.mine, g.yours, g.end, labels);
            (g.text + rest.0, g.conflict || rest.1)
        } else {
            (seq![], false)
        }
    } else if y >= t.len() || (m < o.len() && o[m].start <= t[y].start) {
        let rest = merged_from(base, o, t, m + 1, y, o[m].end, labels);
        (taken(base, o[m], position) + rest.0, rest.1)
    } else {
        let rest = merged_from(base, o, t, m, y + 1, t[y].end, labels);
        (taken(base, t[y], position) + rest.0, rest.1)
    }
}

/// The merge of two versions of a list of lines against their common ancestor.
pub open spec fn merged_lines(
    base: Seq<Seq<char>>,
    ours: Seq<Seq<char>>,
    theirs: Seq<Seq<char>>,
    labels: (Seq<char>, Seq<char>),
) -> (Seq<char>, bool) {
    merged_from(base, hunk_list(base, ours), hunk_list(base, theirs), 0, 0, 0, labels)
}

/// The merge of two versions of a file against their common ancestor: its bytes, and whether any
/// region is a conflict.
pub open spec fn merged_content(
    base: Seq<u8>,
    ours: Seq<u8>,
    theirs: Seq<u8>,
    labels: (Seq<char>, Seq<char>),
) -> (Seq<u8>, bool) {
    let r = merged_lines(lines_of(base), lines_of(ours), lines_of(theirs), labels);
    (encode_utf8(r.0), r.1)
}

/// Appends the text of `lines[from..to]`.
fn append_lines(out: &mut String, lines: &[String], from: usize, to: usize)
    requires
        from <= to <= lines@.len(),
    ensures
        final(out)@ == old(out)@ + flat(texts(lines@).subrange(from as int, to as int)),
{
    let ghost was = out@;
    let ghost all = texts(lines@).subrange(from as int, to as int);
    let mut i: usize = from;
    assert(was + flat(all.take(0)) == was);
    while i < to
        invariant
            from <= i <= to <= lines@.len(),
            all == texts(lines@).subrange(from as int, to as int),
            out@ == was + flat(all.take(i - from)),
        decreases to - i,
    {
        out.append(lines[i].as_str());
        assert(all.take(i + 1 - from).drop_last() == all.take(i - from));
        assert(all.take(i + 1 - from).last() == lines@[i as int]@);
        assert(was + flat(all.take(i - from)) + lines@[i as int]@ == was + (flat(all.take(i - from))
            + lines@[i as int]@));
        i += 1;
    }
    assert(all.take(to - from) == all);
}

/// The text of one side of a conflict.
fn block(lines: &[String]) -> (r: String)
    ensures
        r@ == block_text(texts(lines@)),
{
    let mut out = String::new();
    append_lines(&mut out, lines, 0, lines.len());
    assert(texts(lines@).subrange(0, lines@.len() as int) =~= texts(lines@));
    assert(out@ =~= flat(texts(lines@)));
    if !out.as_str().is_empty() && !ends_with(out.as_str(), "\n") {
        out.append("\n");
    }
    out
}

fn same_lines(a: &[String], b: &[String]) -> (r: bool)
    ensures
        r == (texts(a@) == texts(b@)),
{
    if a.len() != b.len() {
        assert(texts(a@).len() != texts(b@).len());
        return false;
    }
    let mut i: usize = 0;
    while i < a.len()
        invariant
            i <= a.len(),
            a@.len() == b@.len(),
            forall|k: int| 0 <= k < i ==> #[trigger] texts(a@)[k] == texts(b@)[k],
        decreases a.len() - i,
    {
        if !same(a[i].as_str(), b[i].as_str()) {
            assert(texts(a@)[i as int] != texts(b@)[i as int]);
            return false;
        }
        i += 1;
    }
    assert(texts(a@) =~= texts(b@));
    true
}

/// How far the hunks from `k` on reach into a region that ends at `end`.
fn reach_side(h: &[Hunk], k: usize, end: usize) -> (r: (usize, usize))
    requires
        k <= h@.len(),
    ensures
        (r.0 as int, r.1 as int) == reach(changes(h@), k as int, end as int),
{
    let mut i: usize = k;
    let mut e: usize = end;
    while i < h.len() && h[i].start <= e
        invariant
            k <= i <= h.len(),
            reach(changes(h@), i as int, e as int) == reach(changes(h@), k as int, end as int),
        decreases h.len() - i,
    {
        assert(changes(h@)[i as int] == h@[i as int]@);
        if h[i].end > e {
            e = h[i].end;
        }
        i += 1;
    }
    if i < h.len() {
        assert(changes(h@)[i as int] == h@[i as int]@);
    }
    (i, e)
}

/// Grows a region until neither side reaches further.
fn grow(o: &[Hunk], t: &[Hunk], m: usize, y: usize, end: usize, Ghost(len): Ghost<int>) -> (r: (
    usize,
    usize,
    usize,
))
    requires
        m <= o@.len(),
        y <= t@.len(),
        end <= len,
        ordered(changes(o@), len),
        ordered(changes(t@), len),
    ensures
        (r.0 as int, r.1 as int, r.2 as int) == grown(
            changes(o@),
            changes(t@),
            m as int,
            y as int,
            end as int,
        ),
{
    let ghost oc = changes(o@);
    let ghost tc = changes(t@);
    let mut i: usize = m;
    let mut j: usize = y;
    let mut e: usize = end;
    loop
        invariant
            i <= o@.len(),
            j <= t@.len(),
            e <= len,
            oc == changes(o@),
            tc == changes(t@),
            ordered(oc, len),
            ordered(tc, len),
            grown(oc, tc, i as int, j as int, e as int) == grown(
                oc,
                tc,
                m as int,
                y as int,
                end as int,
            ),
        decreases o@.len() - i + t@.len() - j,
    {
        let (i2, e2) = reach_side(o, i, e);
        proof {
            lemma_reach(oc, i as int, e as int, len);
        }
        let (j2, e3) = reach_side(t, j, e2);
        proof {
            lemma_reach(tc, j as int, e2 as int, len);
        }
        if i2 == i && j2 == j {
            return (i, j, e);
        }
        i = i2;
        j = j2;
        e = e3;
    }
}

/// A part of hunks in order is in order, within the bound of its ends.
proof fn lemma_part_ordered(h: Seq<Change>, from: int, to: int, end: int, len: int)
    requires
        0 <= from <= to <= h.len(),
        ordered(h, len),
        forall|i: int| from <= i < to ==> (#[trigger] h[i]).end <= end,
    ensures
        ordered(h.subrange(from, to), end),
{
    let part = h.subrange(from, to);
    assert forall|i: int| 0 <= i < part.len() implies 0 <= (#[trigger] part[i]).start
        <= part[i].end <= end by {
        assert(part[i] == h[from + i]);
    }
    assert forall|i: int, j: int| 0 <= i < j < part.len() implies (#[trigger] part[i]).end < (
    #[trigger] part[j]).start by {
        assert(part[i] == h[from + i]);
        assert(part[j] == h[from + j]);
    }
}

/// Appends the region that two colliding hunks lie in. Gives whether it is a conflict, and where
/// both sides go on.
fn merge_region(
    out: &mut String,
    base: &[String],
    our_hunks: &[Hunk],
    their_hunks: &[Hunk],
    mine: usize,
    yours: usize,
    position: usize,
    ours_label: &str,
    theirs_label: &str,
) -> (r: (bool, usize, usize, usize))
    requires
        mine < our_hunks@.len(),
        yours < their_hunks@.len(),
        ordered(changes(our_hunks@), base@.len() as int),
        ordered(changes(their_hunks@), base@.len() as int),
        position <= our_hunks@[mine as int].start,
        position <= their_hunks@[yours as int].start,
    ensures
        ({
            let g = region(
                texts(base@),
                changes(our_hunks@),
                changes(their_hunks@),
                mine as int,
                yours as int,
                position as int,
                (ours_label@, theirs_label@),
            );
            &&& final(out)@ == old(out)@ + g.text
            &&& r == (g.conflict, g.mine as usize, g.yours as usize, g.end as usize)
            &&& mine < g.mine <= our_hunks@.len()
            &&& yours < g.yours <= their_hunks@.len()
            &&& 0 <= g.end <= base@.len()
            &&& g.mine < our_hunks@.len() ==> g.end <= our_hunks@[g.mine].start
            &&& g.yours < their_hunks@.len() ==> g.end <= their_hunks@[g.yours].start
        }),
{
    let ghost b = texts(base@);
    let ghost o = changes(our_hunks@);
    let ghost t = changes(their_hunks@);
    let ghost was = out@;
    let ghost m = mine as int;
    let ghost y = yours as int;
    assert(o[m] == our_hunks@[m]@);
    assert(t[y] == their_hunks@[y]@);
    let start: usize = if our_hunks[mine].start <= their_hunks[yours].start {
        our_hunks[mine].start
    } else {
        their_hunks[yours].start
    };
    let first_end: usize = if our_hunks[mine].end >= their_hunks[yours].end {
        our_hunks[mine].end
    } else {
        their_hunks[yours].end
    };
    let (m2, y2, end) = grow(
        our_hunks,
        their_hunks,
        mine + 1,
        yours + 1,
        first_end,
        Ghost(b.len() as int),
    );
    proof {
        lemma_grown(o, t, m + 1, y + 1, first_end as int, b.len() as int);
    }
    let our_part = slice_subrange(our_hunks, mine, m2);
    let their_part = slice_subrange(their_hunks, yours, y2);
    proof {
        assert(changes(our_part@) =~= o.subrange(m, m2 as int));
        assert(changes(their_part@) =~= t.subrange(y, y2 as int));
        lemma_part_ordered(o, m, m2 as int, end as int, b.len() as int);
        lemma_part_ordered(t, y, y2 as int, end as int, b.len() as int);
        assert(our_part@[0] == our_hunks@[m]);
        assert(their_part@[0] == their_hunks@[y]);
    }
    let ours_region = rebuild(base, our_part, start, end);
    let theirs_region = rebuild(base, their_part, start, end);
    append_lines(out, base, position, start);
    let ghost head = flat(b.subrange(position as int, start as int));
    let agree = same_lines(ours_region.as_slice(), theirs_region.as_slice());
    if agree {
        append_lines(out, ours_region.as_slice(), 0, ours_region.len());
        let ghost region = texts(ours_region@);
        assert(region.subrange(0, region.len() as int) =~= region);
        assert(was + head + flat(region) =~= was + (head + flat(region)));
    } else {
        let mut text = join3("<<<<<<< ", ours_label, "\n");
        text.append(block(ours_region.as_slice()).as_str());
        text.append("=======\n");
        text.append(block(theirs_region.as_slice()).as_str());
        text.append(">>>>>>> ");
        text.append(theirs_label);
        text.append("\n");
        out.append(text.as_str());
        assert(was + head + text@ =~= was + (head + text@));
    }
    proof {
        if m2 < our_hunks@.len() {
            assert(o[m2 as int] == our_hunks@[m2 as int]@);
        }
        if y2 < their_hunks@.len() {
            assert(t[y2 as int] == their_hunks@[y2 as int]@);
        }
    }
    (!agree, m2, y2, end)
}

/// Appends a hunk that collides with nothing, and what stands before it.
fn take_hunk(out: &mut String, base: &[String], h: &Hunk, position: usize)
    requires
        position <= h.start <= base@.len(),
    ensures
        final(out)@ == old(out)@ + taken(texts(base@), h@, position as int),
{
    let ghost was = out@;
    append_lines(out, base, position, h.start);
    append_lines(out, h.lines.as_slice(), 0, h.lines.len());
    let ghost own = h@.lines;
    let ghost head = flat(texts(base@).subrange(position as int, h.start as int));
    assert(own.subrange(0, own.len() as int) =~= own);
    assert(was + head + flat(own) =~= was + (head + flat(own)));
}

/// A part of the base with the hunks of both sides that lie in it.
pub struct Area {
    pub start: int,
    pub end: int,
    pub mine: (int, int),
    pub yours: (int, int),
}

/// Whether an area holds the hunks that it names and touches no other, and both sides hold the same
/// lines there.
pub open spec fn alike(base: Seq<Seq<char>>, o: Seq<Change>, t: Seq<Change>, a: Area) -> bool {
    &&& 0 <= a.start <= a.end <= base.len()
    &&& 0 <= a.mine.0 < a.mine.1 <= o.len()
    &&& 0 <= a.yours.0 < a.yours.1 <= t.len()
    &&& a.start <= o[a.mine.0].start && o[a.mine.1 - 1].end <= a.end
    &&& a.start <= t[a.yours.0].start && t[a.yours.1 - 1].end <= a.end
    &&& a.mine.0 > 0 ==> o[a.mine.0 - 1].end < a.start
    &&& a.yours.0 > 0 ==> t[a.yours.0 - 1].end < a.start
    &&& a.mine.1 < o.len() ==> a.end < o[a.mine.1].start
    &&& a.yours.1 < t.len() ==> a.end < t[a.yours.1].start
    &&& rebuilt(base, o.subrange(a.mine.0, a.mine.1), a.start, a.end) == rebuilt(
        base,
        t.subrange(a.yours.0, a.yours.1),
        a.start,
        a.end,
    )
}

/// Whether the hunk `i` of ours and the hunk `j` of theirs touch.
pub open spec fn touching(o: Seq<Change>, t: Seq<Change>, i: int, j: int) -> bool {
    0 <= i < o.len() && 0 <= j < t.len() && collide(o[i], t[j])
}

/// Whether the hunk `i` of ours and the hunk `j` of theirs come to the same, in some area that holds
/// both.
pub open spec fn agreed(base: Seq<Seq<char>>, o: Seq<Change>, t: Seq<Change>, i: int, j: int) -> bool {
    exists|a: Area|
        #[trigger] alike(base, o, t, a) && a.mine.0 <= i < a.mine.1 && a.yours.0 <= j < a.yours.1
}

/// Whether a conflict from the hunks `m` and `y` on says what it should of the changes that touch.
spec fn told(
    base: Seq<Seq<char>>,
    o: Seq<Change>,
    t: Seq<Change>,
    m: int,
    y: int,
    conflict: bool,
) -> bool {
    &&& conflict ==> exists|i: int, j: int| m <= i && y <= j && #[trigger] touching(o, t, i, j)
    &&& !conflict ==> forall|i: int, j: int|
        m <= i && y <= j && #[trigger] touching(o, t, i, j) ==> agreed(base, o, t, i, j)
}

/// The hunks that lie behind touch none that lie ahead.
spec fn parted(o: Seq<Change>, t: Seq<Change>, m: int, y: int) -> bool {
    &&& m > 0 && y < t.len() ==> o[m - 1].end < t[y].start
    &&& y > 0 && m < o.len() ==> t[y - 1].end < o[m].start
}

proof fn lemma_told_of_region(
    base: Seq<Seq<char>>,
    o: Seq<Change>,
    t: Seq<Change>,
    m: int,
    y: int,
    m2: int,
    y2: int,
    end: int,
    rest: bool,
)
    requires
        0 <= m < m2 <= o.len(),
        0 <= y < y2 <= t.len(),
        ordered(o, base.len() as int),
        ordered(t, base.len() as int),
        parted(o, t, m, y),
        touching(o, t, m, y),
        end <= base.len(),
        m2 < o.len() ==> end < o[m2].start,
        y2 < t.len() ==> end < t[y2].start,
        o[m2 - 1].end <= end,
        t[y2 - 1].end <= end,
        told(base, o, t, m2, y2, rest),
    ensures
        ({
            let start = least(o[m].start, t[y].start);
            let same = rebuilt(base, o.subrange(m, m2), start, end) == rebuilt(
                base,
                t.subrange(y, y2),
                start,
                end,
            );
            told(base, o, t, m, y, !same || rest)
        }),
{
    let start = least(o[m].start, t[y].start);
    let a = Area { start, end, mine: (m, m2), yours: (y, y2) };
    let same = rebuilt(base, o.subrange(m, m2), start, end) == rebuilt(
        base,
        t.subrange(y, y2),
        start,
        end,
    );
    if same && !rest {
        assert(alike(base, o, t, a));
        assert forall|i: int, j: int|
            m <= i && y <= j && #[trigger] touching(o, t, i, j) implies agreed(base, o, t, i, j) by {
            if i < m2 && j < y2 {
                assert(alike(base, o, t, a));
            } else if i < m2 {
                assert(o[i].end <= o[m2 - 1].end);
                assert(t[y2].start <= t[j].start);
            } else if j < y2 {
                assert(t[j].end <= t[y2 - 1].end);
                assert(o[m2].start <= o[i].start);
            }
        }
    }
}

proof fn lemma_told_of_mine(base: Seq<Seq<char>>, o: Seq<Change>, t: Seq<Change>, m: int, y: int, rest: bool)
    requires
        0 <= m < o.len(),
        0 <= y <= t.len(),
        ordered(o, base.len() as int),
        ordered(t, base.len() as int),
        y < t.len() ==> o[m].end < t[y].start,
        told(base, o, t, m + 1, y, rest),
    ensures
        told(base, o, t, m, y, rest),
{
    if !rest {
        assert forall|i: int, j: int|
            m <= i && y <= j && #[trigger] touching(o, t, i, j) implies agreed(base, o, t, i, j) by {
            if i == m {
                assert(t[y].start <= t[j].start);
            }
        }
    }
}

proof fn lemma_told_of_yours(base: Seq<Seq<char>>, o: Seq<Change>, t: Seq<Change>, m: int, y: int, rest: bool)
    requires
        0 <= m <= o.len(),
        0 <= y < t.len(),
        ordered(o, base.len() as int),
        ordered(t, base.len() as int),
        m < o.len() ==> t[y].end < o[m].start,
        told(base, o, t, m, y + 1, rest),
    ensures
        told(base, o, t, m, y, rest),
{
    if !rest {
        assert forall|i: int, j: int|
            m <= i && y <= j && #[trigger] touching(o, t, i, j) implies agreed(base, o, t, i, j) by {
            if j == y {
                assert(o[m].start <= o[i].start);
            }
        }
    }
}

/// Changes of the two sides that touch come to the same, or the merge is a conflict. Where none
/// touch, it is none.
proof fn lemma_touching_from(
    base: Seq<Seq<char>>,
    o: Seq<Change>,
    t: Seq<Change>,
    m: int,
    y: int,
    position: int,
    labels: (Seq<char>, Seq<char>),
)
    requires
        0 <= m <= o.len(),
        0 <= y <= t.len(),
        ordered(o, base.len() as int),
        ordered(t, base.len() as int),
        parted(o, t, m, y),
    ensures
        told(base, o, t, m, y, merged_from(base, o, t, m, y, position, labels).1),
    decreases o.len() - m + t.len() - y,
{
    let len = base.len() as int;
    if m >= o.len() && y >= t.len() {
    } else if m < o.len() && y < t.len() && collide(o[m], t[y]) {
        let first = most(o[m].end, t[y].end);
        let (m2, y2, end) = grown(o, t, m + 1, y + 1, first);
        lemma_grown(o, t, m + 1, y + 1, first, len);
        lemma_ends_inside(o, t, m, y, len);
        lemma_touching_from(base, o, t, m2, y2, end, labels);
        let rest = merged_from(base, o, t, m2, y2, end, labels).1;
        lemma_told_of_region(base, o, t, m, y, m2, y2, end, rest);
    } else if y >= t.len() || (m < o.len() && o[m].start <= t[y].start) {
        lemma_touching_from(base, o, t, m + 1, y, o[m].end, labels);
        let rest = merged_from(base, o, t, m + 1, y, o[m].end, labels).1;
        lemma_told_of_mine(base, o, t, m, y, rest);
    } else {
        lemma_touching_from(base, o, t, m, y + 1, t[y].end, labels);
        let rest = merged_from(base, o, t, m, y + 1, t[y].end, labels).1;
        lemma_told_of_yours(base, o, t, m, y, rest);
    }
}

proof fn lemma_ends_inside(o: Seq<Change>, t: Seq<Change>, m: int, y: int, len: int)
    requires
        0 <= m < o.len(),
        0 <= y < t.len(),
        ordered(o, len),
        ordered(t, len),
    ensures
        ({
            let (m2, y2, end) = grown(o, t, m + 1, y + 1, most(o[m].end, t[y].end));
            &&& o[m2 - 1].end <= end
            &&& t[y2 - 1].end <= end
            &&& parted(o, t, m2, y2)
        }),
{
    lemma_grown(o, t, m + 1, y + 1, most(o[m].end, t[y].end), len);
}

/// What a conflict says of the changes: where there is one, some changes of the two sides touch; where
/// there is none, all that touch come to the same.
pub proof fn lemma_touching_changes_conflict(
    base: Seq<Seq<char>>,
    ours: Seq<Seq<char>>,
    theirs: Seq<Seq<char>>,
    labels: (Seq<char>, Seq<char>),
)
    ensures
        ({
            let o = hunk_list(base, ours);
            let t = hunk_list(base, theirs);
            let conflict = merged_lines(base, ours, theirs, labels).1;
            &&& conflict ==> exists|i: int, j: int| #[trigger] touching(o, t, i, j)
            &&& !conflict ==> forall|i: int, j: int| #[trigger]
                touching(o, t, i, j) ==> agreed(base, o, t, i, j)
        }),
{
    let o = hunk_list(base, ours);
    let t = hunk_list(base, theirs);
    lemma_hunk_list(base, ours);
    lemma_hunk_list(base, theirs);
    lemma_touching_from(base, o, t, 0, 0, 0, labels);
}

/// Where each side made one change, the merge is a conflict exactly if the two touch and come to
/// different lines.
pub proof fn lemma_single_changes(
    base: Seq<Seq<char>>,
    ours: Seq<Seq<char>>,
    theirs: Seq<Seq<char>>,
    labels: (Seq<char>, Seq<char>),
)
    requires
        hunk_list(base, ours).len() == 1,
        hunk_list(base, theirs).len() == 1,
    ensures
        ({
            let o = hunk_list(base, ours);
            let t = hunk_list(base, theirs);
            let start = least(o[0].start, t[0].start);
            let end = most(o[0].end, t[0].end);
            merged_lines(base, ours, theirs, labels).1 == (collide(o[0], t[0]) && rebuilt(
                base,
                o,
                start,
                end,
            ) != rebuilt(base, t, start, end))
        }),
{
    let o = hunk_list(base, ours);
    let t = hunk_list(base, theirs);
    let end = most(o[0].end, t[0].end);
    reveal_with_fuel(merged_from, 3);
    assert(reach(o, 1, end) == (1int, end));
    assert(reach(t, 1, end) == (1int, end));
    assert(grown(o, t, 1, 1, end) == (1int, 1int, end));
    assert(o.subrange(0, 1) =~= o);
    assert(t.subrange(0, 1) =~= t);
}

/// Merges two versions of a file against their common ancestor. Gives the merged bytes and whether
/// any region had to be written as a conflict. Regions that the two sides changed differently, or
/// changed with no unchanged line between them, conflict.
pub fn merge_content(
    base: &[u8],
    ours: &[u8],
    theirs: &[u8],
    ours_label: &str,
    theirs_label: &str,
) -> (r: (Vec<u8>, bool))
    ensures
        (r.0@, r.1) == merged_content(base@, ours@, theirs@, (ours_label@, theirs_label@)),
        ({
            let b = lines_of(base@);
            let o = hunk_list(b, lines_of(ours@));
            let t = hunk_list(b, lines_of(theirs@));
            &&& r.1 ==> exists|i: int, j: int| #[trigger] touching(o, t, i, j)
            &&& !r.1 ==> forall|i: int, j: int| #[trigger]
                touching(o, t, i, j) ==> agreed(b, o, t, i, j)
        }),
{
    let base_lines = split_lines(base);
    let our_lines = split_lines(ours);
    let their_lines = split_lines(theirs);
    let our_hunks = hunks(base_lines.as_slice(), our_lines.as_slice());
    let their_hunks = hunks(base_lines.as_slice(), their_lines.as_slice());
    let ghost b = texts(base_lines@);
    let ghost o = changes(our_hunks@);
    let ghost t = changes(their_hunks@);
    let ghost labels = (ours_label@, theirs_label@);
    proof {
        lemma_hunk_list(b, texts(our_lines@));
        lemma_hunk_list(b, texts(their_lines@));
        lemma_touching_changes_conflict(b, texts(our_lines@), texts(their_lines@), labels);
    }
    let ghost total = merged_from(b, o, t, 0, 0, 0, labels);
    let mut out = String::new();
    let mut conflicted = false;
    let mut position: usize = 0;
    let mut mine: usize = 0;
    let mut yours: usize = 0;
    assert(out@ + total.0 =~= total.0);
    while mine < our_hunks.len() || yours < their_hunks.len()
        invariant
            mine <= our_hunks.len(),
            yours <= their_hunks.len(),
            position <= base_lines.len(),
            b == texts(base_lines@),
            o == changes(our_hunks@),
            t == changes(their_hunks@),
            labels == (ours_label@, theirs_label@),
            ordered(o, b.len() as int),
            ordered(t, b.len() as int),
            mine < o.len() ==> position <= o[mine as int].start,
            yours < t.len() ==> position <= t[yours as int].start,
            out@ + merged_from(b, o, t, mine as int, yours as int, position as int, labels).0
                == total.0,
            (conflicted || merged_from(
                b,
                o,
                t,
                mine as int,
                yours as int,
                position as int,
                labels,
            ).1) == total.1,
        decreases our_hunks.len() - mine + their_hunks.len() - yours,
    {
        let ghost was = out@;
        let ghost m = mine as int;
        let ghost y = yours as int;
        let ghost here = merged_from(b, o, t, m, y, position as int, labels);
        if mine < our_hunks.len() {
            assert(o[m] == our_hunks@[m]@);
        }
        if yours < their_hunks.len() {
            assert(t[y] == their_hunks@[y]@);
        }
        let touching = mine < our_hunks.len() && yours < their_hunks.len() && overlap(
            &our_hunks[mine],
            &their_hunks[yours],
        );
        if touching {
            let (conflict, m2, y2, end) = merge_region(
                &mut out,
                base_lines.as_slice(),
                our_hunks.as_slice(),
                their_hunks.as_slice(),
                mine,
                yours,
                position,
                ours_label,
                theirs_label,
            );
            let ghost g = region(b, o, t, m, y, position as int, labels);
            let ghost rest = merged_from(b, o, t, g.mine, g.yours, g.end, labels);
            assert(was + g.text + rest.0 =~= was + (g.text + rest.0));
            conflicted = conflicted || conflict;
            position = end;
            mine = m2;
            yours = y2;
        } else if yours >= their_hunks.len() || (mine < our_hunks.len() && our_hunks[mine].start
            <= their_hunks[yours].start) {
            take_hunk(&mut out, base_lines.as_slice(), &our_hunks[mine], position);
            let ghost rest = merged_from(b, o, t, m + 1, y, o[m].end, labels);
            let ghost piece = taken(b, o[m], position as int);
            assert(was + piece + rest.0 =~= was + (piece + rest.0));
            position = our_hunks[mine].end;
            mine += 1;
        } else {
            take_hunk(&mut out, base_lines.as_slice(), &their_hunks[yours], position);
            let ghost rest = merged_from(b, o, t, m, y + 1, t[y].end, labels);
            let ghost piece = taken(b, t[y], position as int);
            assert(was + piece + rest.0 =~= was + (piece + rest.0));
            position = their_hunks[yours].end;
            yours += 1;
        }
        proof {
            if mine < our_hunks@.len() {
                assert(o[mine as int] == our_hunks@[mine as int]@);
            }
            if yours < their_hunks@.len() {
                assert(t[yours as int] == their_hunks@[yours as int]@);
            }
        }
    }
    append_lines(&mut out, base_lines.as_slice(), position, base_lines.len());
    (bytes_of(out.as_str()), conflicted)
}

// ---------------------------------------------------------------------------
// What merging keeps
// ---------------------------------------------------------------------------

/// The text of two lists of lines one after the other.
pub proof fn lemma_flat_concat(a: Seq<Seq<char>>, b: Seq<Seq<char>>)
    ensures
        flat(a + b) == flat(a) + flat(b),
    decreases b.len(),
{
    if b.len() == 0 {
        assert(a + b =~= a);
        assert(flat(a) + seq![] =~= flat(a));
    } else {
        lemma_flat_concat(a, b.drop_last());
        assert((a + b).drop_last() =~= a + b.drop_last());
        assert((a + b).last() == b.last());
        assert(flat(a) + flat(b.drop_last()) + b.last() =~= flat(a) + (flat(b.drop_last())
            + b.last()));
    }
}

/// The lines of a text, one after the other, are the text.
pub proof fn lemma_whole_lines_flat(s: Seq<char>, start: int, i: int)
    requires
        0 <= start <= i <= s.len(),
    ensures
        flat(whole_lines_at(s, start, i)) == s.subrange(start, s.len() as int),
    decreases s.len() - i,
{
    if i >= s.len() {
        if start < s.len() {
            let l = s.subrange(start, s.len() as int);
            lemma_flat_one(l);
        } else {
            assert(s.subrange(start, s.len() as int) =~= seq![]);
        }
    } else if s[i] == '\n' {
        let l = s.subrange(start, i + 1);
        let rest = whole_lines_at(s, i + 1, i + 1);
        lemma_whole_lines_flat(s, i + 1, i + 1);
        lemma_flat_concat(seq![l], rest);
        lemma_flat_one(l);
        assert(l + s.subrange(i + 1, s.len() as int) =~= s.subrange(start, s.len() as int));
    } else {
        lemma_whole_lines_flat(s, start, i + 1);
    }
}

proof fn lemma_flat_one(l: Seq<char>)
    ensures
        flat(seq![l]) == l,
{
    assert(seq![l].drop_last() =~= seq![]);
    assert(flat(seq![]) =~= seq![]);
    assert(seq![] + l =~= l);
}

/// The lines of valid UTF-8, one after the other and encoded again, are the bytes.
pub(crate) proof fn lemma_lines_encode(data: Seq<u8>)
    requires
        valid_utf8(data),
    ensures
        encode_utf8(flat(lines_of(data))) == data,
{
    let s = strict_text(data);
    lemma_whole_lines_flat(s, 0, 0);
    assert(s.subrange(0, s.len() as int) =~= s);
    decode_utf8_encode_utf8(data);
}

/// Replacing the first hunk first.
pub proof fn lemma_rebuilt_first(base: Seq<Seq<char>>, h: Seq<Change>, start: int, end: int)
    requires
        h.len() > 0,
    ensures
        rebuilt(base, h, start, end) == base.subrange(start, h[0].start) + h[0].lines + rebuilt(
            base,
            h.subrange(1, h.len() as int),
            h[0].end,
            end,
        ),
    decreases h.len(),
{
    let rest = h.subrange(1, h.len() as int);
    if h.len() == 1 {
        assert(h.drop_last() =~= seq![]);
        assert(rest =~= seq![]);
        assert(rebuilt(base, seq![], start, h[0].start) == base.subrange(start, h[0].start));
        assert(rebuilt(base, seq![], h[0].end, end) == base.subrange(h[0].end, end));
    } else {
        lemma_rebuilt_first(base, h.drop_last(), start, h.last().start);
        assert(h.drop_last().subrange(1, h.len() - 1) =~= rest.drop_last());
        assert(rest.last() == h.last());
        assert(h.drop_last()[0] == h[0]);
        let a = base.subrange(start, h[0].start) + h[0].lines;
        let b = rebuilt(base, rest.drop_last(), h[0].end, h.last().start);
        assert(a + b + h.last().lines + base.subrange(h.last().end, end) =~= a + (b
            + h.last().lines + base.subrange(h.last().end, end)));
    }
}

/// Where only one side changed anything, the merge is that side.
proof fn lemma_merge_theirs(
    base: Seq<Seq<char>>,
    t: Seq<Change>,
    y: int,
    position: int,
    labels: (Seq<char>, Seq<char>),
)
    requires
        0 <= y <= t.len(),
    ensures
        merged_from(base, seq![], t, 0, y, position, labels) == (
            flat(rebuilt(base, t.subrange(y, t.len() as int), position, base.len() as int)),
            false,
        ),
    decreases t.len() - y,
{
    let left = t.subrange(y, t.len() as int);
    if y < t.len() {
        lemma_merge_theirs(base, t, y + 1, t[y].end, labels);
        lemma_rebuilt_first(base, left, position, base.len() as int);
        assert(left.subrange(1, left.len() as int) =~= t.subrange(y + 1, t.len() as int));
        let rest = rebuilt(base, t.subrange(y + 1, t.len() as int), t[y].end, base.len() as int);
        lemma_flat_concat(base.subrange(position, t[y].start), t[y].lines);
        lemma_flat_concat(base.subrange(position, t[y].start) + t[y].lines, rest);
    }
}

proof fn lemma_merge_ours(
    base: Seq<Seq<char>>,
    o: Seq<Change>,
    m: int,
    position: int,
    labels: (Seq<char>, Seq<char>),
)
    requires
        0 <= m <= o.len(),
    ensures
        merged_from(base, o, seq![], m, 0, position, labels) == (
            flat(rebuilt(base, o.subrange(m, o.len() as int), position, base.len() as int)),
            false,
        ),
    decreases o.len() - m,
{
    let left = o.subrange(m, o.len() as int);
    if m < o.len() {
        lemma_merge_ours(base, o, m + 1, o[m].end, labels);
        lemma_rebuilt_first(base, left, position, base.len() as int);
        assert(left.subrange(1, left.len() as int) =~= o.subrange(m + 1, o.len() as int));
        let rest = rebuilt(base, o.subrange(m + 1, o.len() as int), o[m].end, base.len() as int);
        lemma_flat_concat(base.subrange(position, o[m].start), o[m].lines);
        lemma_flat_concat(base.subrange(position, o[m].start) + o[m].lines, rest);
    }
}

/// Where both sides made the same changes, the merge is either side.
proof fn lemma_merge_both(
    base: Seq<Seq<char>>,
    o: Seq<Change>,
    m: int,
    position: int,
    labels: (Seq<char>, Seq<char>),
)
    requires
        0 <= m <= o.len(),
        ordered(o, base.len() as int),
    ensures
        merged_from(base, o, o, m, m, position, labels) == (
            flat(rebuilt(base, o.subrange(m, o.len() as int), position, base.len() as int)),
            false,
        ),
    decreases o.len() - m,
{
    let left = o.subrange(m, o.len() as int);
    if m < o.len() {
        lemma_merge_both(base, o, m + 1, o[m].end, labels);
        lemma_rebuilt_first(base, left, position, base.len() as int);
        assert(left.subrange(1, left.len() as int) =~= o.subrange(m + 1, o.len() as int));
        let rest = rebuilt(base, o.subrange(m + 1, o.len() as int), o[m].end, base.len() as int);
        lemma_flat_concat(base.subrange(position, o[m].start), o[m].lines);
        lemma_flat_concat(base.subrange(position, o[m].start) + o[m].lines, rest);
        assert(collide(o[m], o[m]));
        assert(m + 1 < o.len() ==> o[m].end < o[m + 1].start);
        assert(reach(o, m + 1, o[m].end) == (m + 1, o[m].end));
        let g = region(base, o, o, m, m, position, labels);
        assert(g.mine == m + 1 && g.yours == m + 1 && g.end == o[m].end);
        let one = o.subrange(m, m + 1);
        assert(one.drop_last() =~= seq![]);
        assert(one.last() == o[m]);
        assert(rebuilt(base, seq![], o[m].start, o[m].start) =~= seq![]);
        assert(base.subrange(o[m].end, o[m].end) =~= seq![]);
        assert(rebuilt(base, one, o[m].start, o[m].end) =~= o[m].lines);
    }
}

/// A side that changed nothing has no hunks.
proof fn lemma_no_hunks(base: Seq<Seq<char>>, n: int)
    requires
        0 <= n <= base.len(),
    ensures
        closed(walk(tagged(Op::Keep, base.take(n)))) == Seq::<Change>::empty(),
        walk(tagged(Op::Keep, base.take(n))).open is None,
    decreases n,
{
    let t = tagged(Op::Keep, base.take(n));
    if n > 0 {
        lemma_no_hunks(base, n - 1);
        assert(t.drop_last() =~= tagged(Op::Keep, base.take(n - 1)));
    } else {
        assert(t =~= seq![]);
    }
}

proof fn lemma_unchanged(base: Seq<Seq<char>>)
    ensures
        hunk_list(base, base) == Seq::<Change>::empty(),
{
    lemma_script_of_same(base);
    lemma_no_hunks(base, base.len() as int);
    assert(base.take(base.len() as int) =~= base);
}

/// Where our side changed nothing, the merge is their side, without a conflict.
pub proof fn lemma_merge_takes_theirs(
    base: Seq<u8>,
    theirs: Seq<u8>,
    labels: (Seq<char>, Seq<char>),
)
    requires
        valid_utf8(theirs),
    ensures
        merged_content(base, base, theirs, labels) == (theirs, false),
{
    let b = lines_of(base);
    let t = hunk_list(b, lines_of(theirs));
    lemma_unchanged(b);
    lemma_merge_theirs(b, t, 0, 0, labels);
    lemma_hunk_list(b, lines_of(theirs));
    assert(t.subrange(0, t.len() as int) =~= t);
    lemma_lines_encode(theirs);
}

/// Where their side changed nothing, the merge is our side, without a conflict.
pub proof fn lemma_merge_takes_ours(base: Seq<u8>, ours: Seq<u8>, labels: (Seq<char>, Seq<char>))
    requires
        valid_utf8(ours),
    ensures
        merged_content(base, ours, base, labels) == (ours, false),
{
    let b = lines_of(base);
    let o = hunk_list(b, lines_of(ours));
    lemma_unchanged(b);
    lemma_merge_ours(b, o, 0, 0, labels);
    lemma_hunk_list(b, lines_of(ours));
    assert(o.subrange(0, o.len() as int) =~= o);
    lemma_lines_encode(ours);
}

/// The same change on both sides is no conflict: the merge is what both sides hold.
pub proof fn lemma_merge_of_same(base: Seq<u8>, both: Seq<u8>, labels: (Seq<char>, Seq<char>))
    requires
        valid_utf8(both),
    ensures
        merged_content(base, both, both, labels) == (both, false),
{
    let b = lines_of(base);
    let o = hunk_list(b, lines_of(both));
    lemma_hunk_list(b, lines_of(both));
    lemma_merge_both(b, o, 0, 0, labels);
    assert(o.subrange(0, o.len() as int) =~= o);
    lemma_lines_encode(both);
}

} // verus!
