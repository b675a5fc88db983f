//! Line diffing and patch rendering.
//!
//! Diffs are computed on whole lines by a longest common subsequence, after the common prefix and
//! suffix are set aside, then grouped into unified hunks. A changed region that is too long on
//! either side is shown as replaced as a whole. Lines keep their line end, so text that ends
//! without one differs from the same text that ends with one.

use vstd::prelude::*;
use vstd::utf8::valid_utf8;

use crate::bytes::{is_alphabetic, is_text, letter, strict_text, text_or_empty};
use crate::numbers::{decimal, format_usize};
use crate::objects::{blob_hash, blob_id, short, short_id};
use crate::text::{
    before_suffix, chars_of, copy_text, cut, ends, ends_with, join2, join3, same, same_bytes, split_inclusive,
    texts, trim_end, trimmed_end, whole_lines,
};

verus! {

/// Lines of unchanged context shown around each hunk.
pub const DEFAULT_CONTEXT: usize = 3;

/// The largest changed region that is aligned line by line, per side.
pub const MAX_ALIGNED_LINES: usize = 1_000;

/// One step of an edit script.
#[derive(Clone, Copy, Debug, PartialEq, Eq, Structural)]
pub enum Op {
    Keep,
    Delete,
    Insert,
}

/// One entry of an edit script: an operation and the line that it applies to, line end included.
pub struct Edit {
    pub op: Op,
    pub text: String,
}

impl View for Edit {
    type V = (Op, Seq<char>);

    open spec fn view(&self) -> (Op, Seq<char>) {
        (self.op, self.text@)
    }
}

/// The operations and lines of a script.
pub open spec fn script_of(v: Seq<Edit>) -> Seq<(Op, Seq<char>)> {
    v.map_values(|e: Edit| e@)
}

pub broadcast proof fn lemma_script_push(v: Seq<Edit>, e: Edit)
    ensures
        #[trigger] script_of(v.push(e)) == script_of(v).push(e@),
{
    assert(script_of(v.push(e)) =~= script_of(v).push(e@));
}

/// The lines that `data` holds, where it is valid UTF-8, with their line ends.
pub open spec fn lines_of(data: Seq<u8>) -> Seq<Seq<char>> {
    whole_lines(strict_text(data))
}

/// Splits content into lines that keep their line ends.
pub fn split_lines(data: &[u8]) -> (r: Vec<String>)
    ensures
        texts(r@) == lines_of(data@),
{
    split_inclusive(text_or_empty(data).as_str())
}

/// `line` without its line end.
pub open spec fn body_of(line: Seq<char>) -> Seq<char> {
    match before_suffix(line, seq!['\n']) {
        Some(rest) => rest,
        None => line,
    }
}

fn body(line: &str) -> (r: String)
    ensures
        r@ == body_of(line@),
{
    let cs = chars_of(line);
    if cs.len() > 0 && cs[cs.len() - 1] == '\n' {
        assert(line@.subrange(line@.len() - 1, line@.len() as int) =~= seq!['\n']);
        cut(cs.as_slice(), 0, cs.len() - 1)
    } else {
        proof {
            if ends(line@, seq!['\n']) {
                assert(line@.subrange(line@.len() - 1, line@.len() as int)[0] == '\n');
            }
        }
        copy_text(line)
    }
}

/// How many leading bytes are searched for a zero byte.
pub const BINARY_PROBE: usize = 8_000;

/// Whether `data` is treated as binary: it is no UTF-8, or a zero byte stands near its start.
pub open spec fn binary(data: Seq<u8>) -> bool {
    (exists|i: int| 0 <= i < data.len() && i < BINARY_PROBE && #[trigger] data[i] == 0)
        || !valid_utf8(data)
}

/// Whether `data` is treated as binary.
pub fn is_binary(data: &[u8]) -> (r: bool)
    ensures
        r == binary(data@),
{
    let mut i: usize = 0;
    while i < data.len() && i < BINARY_PROBE
        invariant
            i <= data.len(),
            forall|j: int| 0 <= j < i ==> #[trigger] data@[j] != 0,
        decreases data.len() - i,
    {
        if data[i] == 0 {
            return true;
        }
        i += 1;
    }
    !is_text(data)
}

// ---------------------------------------------------------------------------
// Edit scripts
// ---------------------------------------------------------------------------

/// How many lines `a` and `b` share at their start.
pub open spec fn common_prefix(a: Seq<Seq<char>>, b: Seq<Seq<char>>) -> nat
    decreases a.len(),
{
    if a.len() > 0 && b.len() > 0 && a[0] == b[0] {
        1 + common_prefix(a.subrange(1, a.len() as int), b.subrange(1, b.len() as int))
    } else {
        0
    }
}

/// How many lines `a` and `b` share at their end.
pub open spec fn common_suffix(a: Seq<Seq<char>>, b: Seq<Seq<char>>) -> nat
    decreases a.len(),
{
    if a.len() > 0 && b.len() > 0 && a.last() == b.last() {
        1 + common_suffix(a.drop_last(), b.drop_last())
    } else {
        0
    }
}

/// Every line of `lines` under the operation `op`.
pub open spec fn tagged(op: Op, lines: Seq<Seq<char>>) -> Seq<(Op, Seq<char>)> {
    lines.map_values(|t: Seq<char>| (op, t))
}

/// The length of a longest common subsequence of `a[i..]` and `b[j..]`.
pub open spec fn lcs(a: Seq<Seq<char>>, b: Seq<Seq<char>>, i: int, j: int) -> nat
    decreases a.len() - i + b.len() - j,
{
    if 0 <= i < a.len() && 0 <= j < b.len() {
        if a[i] == b[j] {
            1 + lcs(a, b, i + 1, j + 1)
        } else {
            let x = lcs(a, b, i + 1, j);
            let y = lcs(a, b, i, j + 1);
            if x >= y {
                x
            } else {
                y
            }
        }
    } else {
        0
    }
}

/// The script that turns `a[i..]` into `b[j..]` along a longest common subsequence, deleting
/// before inserting where both keep as much.
pub open spec fn aligned(a: Seq<Seq<char>>, b: Seq<Seq<char>>, i: int, j: int) -> Seq<
    (Op, Seq<char>),
>
    decreases a.len() - i + b.len() - j,
{
    if 0 <= i < a.len() && 0 <= j < b.len() {
        if a[i] == b[j] {
            seq![(Op::Keep, a[i])] + aligned(a, b, i + 1, j + 1)
        } else if lcs(a, b, i + 1, j) >= lcs(a, b, i, j + 1) {
            seq![(Op::Delete, a[i])] + aligned(a, b, i + 1, j)
        } else {
            seq![(Op::Insert, b[j])] + aligned(a, b, i, j + 1)
        }
    } else {
        tagged(Op::Delete, a.subrange(i, a.len() as int)) + tagged(
            Op::Insert,
            b.subrange(j, b.len() as int),
        )
    }
}

/// The middle part of a script, between the common prefix and suffix.
pub open spec fn middle_script(a: Seq<Seq<char>>, b: Seq<Seq<char>>) -> Seq<(Op, Seq<char>)> {
    if a.len() > MAX_ALIGNED_LINES || b.len() > MAX_ALIGNED_LINES {
        tagged(Op::Delete, a) + tagged(Op::Insert, b)
    } else {
        aligned(a, b, 0, 0)
    }
}

/// The edit script that turns `a` into `b`.
pub open spec fn script(a: Seq<Seq<char>>, b: Seq<Seq<char>>) -> Seq<(Op, Seq<char>)> {
    let p = common_prefix(a, b) as int;
    let q = common_suffix(
        a.subrange(p, a.len() as int),
        b.subrange(p, b.len() as int),
    ) as int;
    tagged(Op::Keep, a.subrange(0, p)) + middle_script(
        a.subrange(p, a.len() - q),
        b.subrange(p, b.len() - q),
    ) + tagged(Op::Keep, a.subrange(a.len() - q, a.len() as int))
}

/// The common prefix is no longer than either side.
pub proof fn lemma_prefix_bound(a: Seq<Seq<char>>, b: Seq<Seq<char>>)
    ensures
        common_prefix(a, b) <= a.len(),
        common_prefix(a, b) <= b.len(),
        forall|i: int| 0 <= i < common_prefix(a, b) ==> #[trigger] a[i] == b[i],
    decreases a.len(),
{
    if a.len() > 0 && b.len() > 0 && a[0] == b[0] {
        let x = a.subrange(1, a.len() as int);
        let y = b.subrange(1, b.len() as int);
        lemma_prefix_bound(x, y);
        assert forall|i: int| 0 <= i < common_prefix(a, b) implies #[trigger] a[i] == b[i] by {
            if i > 0 {
                assert(x[i - 1] == y[i - 1]);
            }
        }
    }
}

/// The common suffix is no longer than either side.
pub proof fn lemma_suffix_bound(a: Seq<Seq<char>>, b: Seq<Seq<char>>)
    ensures
        common_suffix(a, b) <= a.len(),
        common_suffix(a, b) <= b.len(),
        forall|i: int|
            0 <= i < common_suffix(a, b) ==> #[trigger] a[a.len() - 1 - i] == b[b.len() - 1 - i],
    decreases a.len(),
{
    if a.len() > 0 && b.len() > 0 && a.last() == b.last() {
        lemma_suffix_bound(a.drop_last(), b.drop_last());
        let x = a.drop_last();
        let y = b.drop_last();
        assert forall|i: int| 0 <= i < common_suffix(a, b) implies #[trigger] a[a.len() - 1 - i]
            == b[b.len() - 1 - i] by {
            if i > 0 {
                assert(x[x.len() - 1 - (i - 1)] == y[y.len() - 1 - (i - 1)]);
            }
        }
    }
}

fn prefix_length(a: &[String], b: &[String]) -> (r: usize)
    ensures
        r == common_prefix(texts(a@), texts(b@)),
        r <= a@.len(),
        r <= b@.len(),
{
    let ghost x = texts(a@);
    let ghost y = texts(b@);
    let mut i: usize = 0;
    assert(x.subrange(0, x.len() as int) == x);
    assert(y.subrange(0, y.len() as int) == y);
    while i < a.len() && i < b.len() && same(a[i].as_str(), b[i].as_str())
        invariant
            i <= a.len(),
            i <= b.len(),
            x == texts(a@),
            y == texts(b@),
            common_prefix(x, y) == i + common_prefix(
                x.subrange(i as int, x.len() as int),
                y.subrange(i as int, y.len() as int),
            ),
        decreases a.len() - i,
    {
        let ghost u = x.subrange(i as int, x.len() as int);
        let ghost v = y.subrange(i as int, y.len() as int);
        assert(u.subrange(1, u.len() as int) == x.subrange(i + 1, x.len() as int));
        assert(v.subrange(1, v.len() as int) == y.subrange(i + 1, y.len() as int));
        assert(u[0] == v[0]);
        i += 1;
    }
    i
}

fn suffix_length(a: &[String], b: &[String], from: usize) -> (r: usize)
    requires
        from <= a@.len(),
        from <= b@.len(),
    ensures
        r == common_suffix(
            texts(a@).subrange(from as int, a@.len() as int),
            texts(b@).subrange(from as int, b@.len() as int),
        ),
        r <= a@.len() - from,
        r <= b@.len() - from,
{
    let ghost x = texts(a@).subrange(from as int, a@.len() as int);
    let ghost y = texts(b@).subrange(from as int, b@.len() as int);
    let mut i: usize = 0;
    assert(x.take(x.len() as int) == x);
    assert(y.take(y.len() as int) == y);
    while i < a.len() - from && i < b.len() - from && same(
        a[a.len() - 1 - i].as_str(),
        b[b.len() - 1 - i].as_str(),
    )
        invariant
            from <= a@.len(),
            from <= b@.len(),
            i <= a.len() - from,
            i <= b.len() - from,
            x == texts(a@).subrange(from as int, a@.len() as int),
            y == texts(b@).subrange(from as int, b@.len() as int),
            common_suffix(x, y) == i + common_suffix(x.take(x.len() - i), y.take(y.len() - i)),
        decreases a.len() - from - i,
    {
        let ghost u = x.take(x.len() - i);
        let ghost v = y.take(y.len() - i);
        assert(u.drop_last() == x.take(x.len() - (i + 1)));
        assert(v.drop_last() == y.take(y.len() - (i + 1)));
        assert(u.last() == v.last());
        i += 1;
    }
    i
}

/// Appends `lines[from..to]` to a script under one operation.
fn push_tagged(out: &mut Vec<Edit>, op: Op, lines: &[String], from: usize, to: usize)
    requires
        from <= to <= lines@.len(),
    ensures
        script_of(final(out)@) == script_of(old(out)@) + tagged(
            op,
            texts(lines@).subrange(from as int, to as int),
        ),
{
    let ghost was = script_of(out@);
    let ghost all = tagged(op, texts(lines@).subrange(from as int, to as int));
    let mut i: usize = from;
    assert(was + all.take(0) == was);
    while i < to
        invariant
            from <= i <= to <= lines@.len(),
            all == tagged(op, texts(lines@).subrange(from as int, to as int)),
            script_of(out@) == was + all.take(i - from),
        decreases to - i,
    {
        broadcast use lemma_script_push;

        out.push(Edit { op, text: copy_text(lines[i].as_str()) });
        assert(all.take(i + 1 - from) == all.take(i - from).push((op, lines@[i as int]@)));
        assert((was + all.take(i - from)).push((op, lines@[i as int]@)) == was + all.take(
            i + 1 - from,
        ));
        i += 1;
    }
    assert(all.take(to - from) == all);
}

/// The table of longest common subsequence lengths, row by row.
pub open spec fn cell(table: Seq<u32>, columns: int, row: int, column: int) -> u32 {
    table[row * columns + column]
}

proof fn lemma_cell_index(rows: int, columns: int, row: int, column: int)
    requires
        0 <= row < rows,
        0 <= column < columns,
    ensures
        0 <= row * columns + column < rows * columns,
{
    assert(row * columns + column < rows * columns) by (nonlinear_arith)
        requires
            0 <= row < rows,
            0 <= column < columns,
    ;
    assert(0 <= row * columns) by (nonlinear_arith)
        requires
            0 <= row,
            0 <= columns,
    ;
}

proof fn lemma_cell_distinct(columns: int, r1: int, c1: int, r2: int, c2: int)
    requires
        0 <= c1 < columns,
        0 <= c2 < columns,
        r1 * columns + c1 == r2 * columns + c2,
    ensures
        r1 == r2,
        c1 == c2,
{
    assert(r1 == r2) by (nonlinear_arith)
        requires
            0 <= c1 < columns,
            0 <= c2 < columns,
            r1 * columns + c1 == r2 * columns + c2,
    ;
}

proof fn lemma_lcs_bound(a: Seq<Seq<char>>, b: Seq<Seq<char>>, i: int, j: int)
    requires
        0 <= i <= a.len(),
    ensures
        lcs(a, b, i, j) <= a.len() - i,
    decreases a.len() - i + b.len() - j,
{
    if i < a.len() && 0 <= j < b.len() {
        if a[i] == b[j] {
            lemma_lcs_bound(a, b, i + 1, j + 1);
        } else {
            lemma_lcs_bound(a, b, i + 1, j);
            lemma_lcs_bound(a, b, i, j + 1);
        }
    }
}

fn lcs_table(old: &[String], new: &[String]) -> (table: Vec<u32>)
    requires
        old@.len() <= MAX_ALIGNED_LINES,
        new@.len() <= MAX_ALIGNED_LINES,
    ensures
        table@.len() == (old@.len() + 1) * (new@.len() + 1),
        forall|i: int, j: int|
            0 <= i <= old@.len() && 0 <= j <= new@.len() ==> #[trigger] cell(
                table@,
                new@.len() as int + 1,
                i,
                j,
            ) == lcs(texts(old@), texts(new@), i, j),
{
    let ghost a = texts(old@);
    let ghost b = texts(new@);
    let rows: usize = old.len() + 1;
    let columns: usize = new.len() + 1;
    assert(rows * columns <= 1001 * 1001) by (nonlinear_arith)
        requires
            rows <= 1001,
            columns <= 1001,
    ;
    let mut table: Vec<u32> = vec![0u32; rows * columns];
    assert forall|i: int, j: int| 0 <= i < rows && 0 <= j < columns implies #[trigger] cell(
        table@,
        columns as int,
        i,
        j,
    ) == 0 by {
        lemma_cell_index(rows as int, columns as int, i, j);
    }
    let mut row: usize = old.len();
    while row > 0
        invariant
            row <= old.len(),
            rows == old.len() + 1,
            columns == new.len() + 1,
            old@.len() <= MAX_ALIGNED_LINES,
            new@.len() <= MAX_ALIGNED_LINES,
            a == texts(old@),
            b == texts(new@),
            table@.len() == rows * columns,
            rows * columns <= 1001 * 1001,
            forall|i: int, j: int|
                row <= i < rows && 0 <= j < columns ==> #[trigger] cell(
                    table@,
                    columns as int,
                    i,
                    j,
                ) == lcs(a, b, i, j),
            forall|i: int, j: int|
                0 <= i < row && 0 <= j < columns ==> #[trigger] cell(
                    table@,
                    columns as int,
                    i,
                    j,
                ) == 0,
        decreases row,
    {
        row -= 1;
        let mut column: usize = new.len();
        while column > 0
            invariant
                row < old.len(),
                column <= new.len(),
                rows == old.len() + 1,
                columns == new.len() + 1,
                old@.len() <= MAX_ALIGNED_LINES,
                new@.len() <= MAX_ALIGNED_LINES,
                a == texts(old@),
                b == texts(new@),
                table@.len() == rows * columns,
                rows * columns <= 1001 * 1001,
                forall|i: int, j: int|
                    row < i < rows && 0 <= j < columns ==> #[trigger] cell(
                        table@,
                        columns as int,
                        i,
                        j,
                    ) == lcs(a, b, i, j),
                forall|j: int|
                    column <= j < columns ==> #[trigger] cell(
                        table@,
                        columns as int,
                        row as int,
                        j,
                    ) == lcs(a, b, row as int, j),
                forall|i: int, j: int|
                    0 <= i < row && 0 <= j < columns ==> #[trigger] cell(
                        table@,
                        columns as int,
                        i,
                        j,
                    ) == 0,
            decreases column,
        {
            column -= 1;
            proof {
                lemma_cell_index(rows as int, columns as int, row as int, column as int);
                lemma_cell_index(rows as int, columns as int, row as int, column + 1);
                lemma_cell_index(rows as int, columns as int, row + 1, column as int);
                lemma_cell_index(rows as int, columns as int, row + 1, column + 1);
                lemma_lcs_bound(a, b, row + 1, column + 1);
                assert(0 <= row * columns) by (nonlinear_arith);
                assert(0 <= (row + 1) * columns) by (nonlinear_arith);
                assert(cell(table@, columns as int, row + 1, column + 1) == lcs(
                    a,
                    b,
                    row + 1,
                    column + 1,
                ));
                assert(cell(table@, columns as int, row + 1, column as int) == lcs(
                    a,
                    b,
                    row + 1,
                    column as int,
                ));
                assert(cell(table@, columns as int, row as int, column + 1) == lcs(
                    a,
                    b,
                    row as int,
                    column + 1,
                ));
                assert(a[row as int] == old@[row as int]@);
                assert(b[column as int] == new@[column as int]@);
            }
            let value: u32 = if same(old[row].as_str(), new[column].as_str()) {
                table[(row + 1) * columns + (column + 1)] + 1
            } else {
                let below = table[(row + 1) * columns + column];
                let right = table[row * columns + (column + 1)];
                if below >= right {
                    below
                } else {
                    right
                }
            };
            assert(value == lcs(a, b, row as int, column as int));
            let ghost was = table@;
            let index: usize = row * columns + column;
            table[index] = value;
            assert forall|i: int, j: int|
                0 <= i < rows && 0 <= j < columns && !(i == row && j == column) implies #[trigger] cell(
                table@,
                columns as int,
                i,
                j,
            ) == cell(was, columns as int, i, j) by {
                lemma_cell_index(rows as int, columns as int, i, j);
                if i * columns + j == row * columns + column {
                    lemma_cell_distinct(columns as int, i, j, row as int, column as int);
                }
            }
            assert(cell(table@, columns as int, row as int, column as int) == value);
        }
    }
    table
}

/// Aligns two short line sequences.
fn align(old: &[String], new: &[String]) -> (r: Vec<Edit>)
    requires
        old@.len() <= MAX_ALIGNED_LINES,
        new@.len() <= MAX_ALIGNED_LINES,
    ensures
        script_of(r@) == aligned(texts(old@), texts(new@), 0, 0),
{
    let ghost a = texts(old@);
    let ghost b = texts(new@);
    let columns: usize = new.len() + 1;
    let table = lcs_table(old, new);
    let mut edits: Vec<Edit> = Vec::new();
    let mut row: usize = 0;
    let mut column: usize = 0;
    assert(script_of(edits@) + aligned(a, b, 0, 0) == aligned(a, b, 0, 0));
    while row < old.len() && column < new.len()
        invariant
            row <= old.len(),
            column <= new.len(),
            columns == new.len() + 1,
            old@.len() <= MAX_ALIGNED_LINES,
            new@.len() <= MAX_ALIGNED_LINES,
            a == texts(old@),
            b == texts(new@),
            table@.len() == (old@.len() + 1) * (new@.len() + 1),
            forall|i: int, j: int|
                0 <= i <= old@.len() && 0 <= j <= new@.len() ==> #[trigger] cell(
                    table@,
                    new@.len() as int + 1,
                    i,
                    j,
                ) == lcs(a, b, i, j),
            script_of(edits@) + aligned(a, b, row as int, column as int) == aligned(a, b, 0, 0),
        decreases old.len() - row + new.len() - column,
    {
        broadcast use lemma_script_push;

        let ghost was = script_of(edits@);
        proof {
            let rows = old@.len() as int + 1;
            lemma_cell_index(rows, columns as int, row + 1, column as int);
            lemma_cell_index(rows, columns as int, row as int, column + 1);
            assert(rows * columns <= 1001 * 1001) by (nonlinear_arith)
                requires
                    0 <= rows <= 1001,
                    columns <= 1001,
            ;
            assert(0 <= row * columns) by (nonlinear_arith);
            assert(0 <= (row + 1) * columns) by (nonlinear_arith);
            assert(cell(table@, columns as int, row + 1, column as int) == lcs(
                a,
                b,
                row + 1,
                column as int,
            ));
            assert(cell(table@, columns as int, row as int, column + 1) == lcs(
                a,
                b,
                row as int,
                column + 1,
            ));
        }
        if same(old[row].as_str(), new[column].as_str()) {
            let e = Edit { op: Op::Keep, text: copy_text(old[row].as_str()) };
            edits.push(e);
            assert(was + (seq![e@] + aligned(a, b, row + 1, column + 1)) == was.push(e@) + aligned(
                a,
                b,
                row + 1,
                column + 1,
            ));
            row += 1;
            column += 1;
        } else if table[(row + 1) * columns + column] >= table[row * columns + (column + 1)] {
            let e = Edit { op: Op::Delete, text: copy_text(old[row].as_str()) };
            edits.push(e);
            assert(was + (seq![e@] + aligned(a, b, row + 1, column as int)) == was.push(e@)
                + aligned(a, b, row + 1, column as int));
            row += 1;
        } else {
            let e = Edit { op: Op::Insert, text: copy_text(new[column].as_str()) };
            edits.push(e);
            assert(was + (seq![e@] + aligned(a, b, row as int, column + 1)) == was.push(e@)
                + aligned(a, b, row as int, column + 1));
            column += 1;
        }
    }
    let ghost was = script_of(edits@);
    push_tagged(&mut edits, Op::Delete, old, row, old.len());
    push_tagged(&mut edits, Op::Insert, new, column, new.len());
    assert(script_of(edits@) =~= was + aligned(a, b, row as int, column as int));
    edits
}

/// Builds the edit script that turns `old` into `new`.
pub fn edit_script(old: &[String], new: &[String]) -> (r: Vec<Edit>)
    ensures
        script_of(r@) == script(texts(old@), texts(new@)),
{
    let prefix = prefix_length(old, new);
    let suffix = suffix_length(old, new, prefix);
    let old_end: usize = old.len() - suffix;
    let new_end: usize = new.len() - suffix;
    let old_middle = vstd::slice::slice_subrange(old, prefix, old_end);
    let new_middle = vstd::slice::slice_subrange(new, prefix, new_end);
    assert(texts(old_middle@) == texts(old@).subrange(prefix as int, old_end as int));
    assert(texts(new_middle@) == texts(new@).subrange(prefix as int, new_end as int));
    let mut edits: Vec<Edit> = Vec::new();
    assert(script_of(edits@) == Seq::<(Op, Seq<char>)>::empty());
    push_tagged(&mut edits, Op::Keep, old, 0, prefix);
    let ghost head = tagged(Op::Keep, texts(old@).subrange(0, prefix as int));
    assert(script_of(edits@) == head);
    let ghost middle = middle_script(texts(old_middle@), texts(new_middle@));
    if old_middle.len() > MAX_ALIGNED_LINES || new_middle.len() > MAX_ALIGNED_LINES {
        push_tagged(&mut edits, Op::Delete, old, prefix, old_end);
        push_tagged(&mut edits, Op::Insert, new, prefix, new_end);
        assert(script_of(edits@) == head + middle);
    } else {
        let mut inner = align(old_middle, new_middle);
        let ghost was = edits@;
        let ghost added = inner@;
        edits.append(&mut inner);
        assert(script_of(was + added) =~= script_of(was) + script_of(added));
    }
    push_tagged(&mut edits, Op::Keep, old, old_end, old.len());
    edits
}

// ---------------------------------------------------------------------------
// Counting and rendering
// ---------------------------------------------------------------------------

/// The content of an optional file.
pub open spec fn content(o: Option<&[u8]>) -> Option<Seq<u8>> {
    match o {
        Some(b) => Some(b@),
        None => None,
    }
}

/// The content of an optional file, empty where there is none.
pub open spec fn content_or_empty(o: Option<Seq<u8>>) -> Seq<u8> {
    match o {
        Some(b) => b,
        None => seq![],
    }
}

/// The script between two optional files.
pub open spec fn file_script(old: Option<Seq<u8>>, new: Option<Seq<u8>>) -> Seq<(Op, Seq<char>)> {
    script(lines_of(content_or_empty(old)), lines_of(content_or_empty(new)))
}

/// How many entries of a script are `op`.
pub open spec fn counted(edits: Seq<(Op, Seq<char>)>, op: Op) -> nat
    decreases edits.len(),
{
    if edits.len() == 0 {
        0
    } else {
        counted(edits.drop_last(), op) + if edits.last().0 == op {
            1nat
        } else {
            0nat
        }
    }
}

/// How many entries of a script are not `op`.
pub open spec fn held(edits: Seq<(Op, Seq<char>)>, op: Op) -> nat
    decreases edits.len(),
{
    if edits.len() == 0 {
        0
    } else {
        held(edits.drop_last(), op) + if edits.last().0 != op {
            1nat
        } else {
            0nat
        }
    }
}

/// How many entries of `edits[from..to]` are not `op`.
fn count_held(edits: &[Edit], op: Op, from: usize, to: usize) -> (r: usize)
    requires
        from <= to <= edits@.len(),
    ensures
        r == held(script_of(edits@).subrange(from as int, to as int), op),
        r <= to - from,
{
    let ghost all = script_of(edits@).subrange(from as int, to as int);
    let mut n: usize = 0;
    let mut i: usize = from;
    while i < to
        invariant
            from <= i <= to <= edits@.len(),
            all == script_of(edits@).subrange(from as int, to as int),
            n == held(all.take(i - from), op),
            n <= i - from,
        decreases to - i,
    {
        assert(all.take(i + 1 - from).drop_last() == all.take(i - from));
        assert(all.take(i + 1 - from).last() == edits@[i as int]@);
        if edits[i].op != op {
            n += 1;
        }
        i += 1;
    }
    assert(all.take(to - from) == all);
    n
}

fn count_of(edits: &[Edit], op: Op) -> (r: usize)
    ensures
        r == counted(script_of(edits@), op),
{
    let ghost all = script_of(edits@);
    let mut n: usize = 0;
    let mut i: usize = 0;
    while i < edits.len()
        invariant
            i <= edits.len(),
            all == script_of(edits@),
            n == counted(all.take(i as int), op),
            n <= i,
        decreases edits.len() - i,
    {
        assert(all.take(i + 1).drop_last() == all.take(i as int));
        assert(all.take(i + 1).last() == edits@[i as int]@);
        if edits[i].op == op {
            n += 1;
        }
        i += 1;
    }
    assert(all.take(i as int) == all);
    n
}

/// The edit script between two optional files.
fn script_between(old: Option<&[u8]>, new: Option<&[u8]>) -> (r: Vec<Edit>)
    ensures
        script_of(r@) == file_script(content(old), content(new)),
{
    let old_lines = match old {
        Some(data) => split_lines(data),
        None => split_lines(&[]),
    };
    let new_lines = match new {
        Some(data) => split_lines(data),
        None => split_lines(&[]),
    };
    edit_script(old_lines.as_slice(), new_lines.as_slice())
}

/// The numbers of inserted and of deleted lines.
pub fn change_counts(old: Option<&[u8]>, new: Option<&[u8]>) -> (r: (usize, usize))
    ensures
        r.0 == counted(file_script(content(old), content(new)), Op::Insert),
        r.1 == counted(file_script(content(old), content(new)), Op::Delete),
{
    let edits = script_between(old, new);
    (count_of(edits.as_slice(), Op::Insert), count_of(edits.as_slice(), Op::Delete))
}

/// The path prefixes of the two sides.
pub open spec fn side_labels(prefixes: bool) -> (Seq<char>, Seq<char>) {
    if prefixes {
        ("a/"@, "b/"@)
    } else {
        (""@, ""@)
    }
}

fn labels(prefixes: bool) -> (r: (&'static str, &'static str))
    ensures
        (r.0@, r.1@) == side_labels(prefixes),
{
    if prefixes {
        ("a/", "b/")
    } else {
        ("", "")
    }
}

/// The abbreviated name of a side, all zeros where the file is missing.
pub open spec fn side_id(data: Option<Seq<u8>>) -> Seq<char> {
    match data {
        Some(d) => short_id(blob_id(d)),
        None => "0000000"@,
    }
}

fn side_hash(data: Option<&[u8]>) -> (r: String)
    ensures
        r@ == side_id(content(data)),
{
    match data {
        Some(d) => short(blob_hash(d).as_str()),
        None => copy_text("0000000"),
    }
}

/// The header before the hunks of one file.
pub open spec fn header_text(
    path: Seq<char>,
    old: Option<Seq<u8>>,
    new: Option<Seq<u8>>,
    prefixes: bool,
) -> Seq<char> {
    let (left, right) = side_labels(prefixes);
    let mode = if old is None && new is Some {
        "new file mode 100644\n"@
    } else if old is Some && new is None {
        "deleted file mode 100644\n"@
    } else {
        ""@
    };
    let both = if old is Some && new is Some {
        " 100644"@
    } else {
        ""@
    };
    "diff --git "@ + left + path + " "@ + right + path + "\n"@ + mode + "index "@ + side_id(old)
        + ".."@ + side_id(new) + both + "\n"@
}

fn header(path: &str, old: Option<&[u8]>, new: Option<&[u8]>, prefixes: bool) -> (r: String)
    ensures
        r@ == header_text(path@, content(old), content(new), prefixes),
{
    let (left, right) = labels(prefixes);
    let mut text = join3("diff --git ", left, path);
    text.append(" ");
    text.append(right);
    text.append(path);
    text.append("\n");
    let mode = if old.is_none() && new.is_some() {
        "new file mode 100644\n"
    } else if old.is_some() && new.is_none() {
        "deleted file mode 100644\n"
    } else {
        ""
    };
    text.append(mode);
    text.append("index ");
    text.append(side_hash(old).as_str());
    text.append("..");
    text.append(side_hash(new).as_str());
    let both = if old.is_some() && new.is_some() {
        " 100644"
    } else {
        ""
    };
    text.append(both);
    text.append("\n");
    text
}

/// A line range as hunk headers write it.
pub open spec fn range_text(start: int, count: int) -> Seq<char> {
    if count == 1 {
        decimal(start as nat)
    } else {
        decimal(start as nat) + ","@ + decimal(count as nat)
    }
}

fn range(start: usize, count: usize) -> (r: String)
    ensures
        r@ == range_text(start as int, count as int),
{
    if count == 1 {
        format_usize(start)
    } else {
        join3(format_usize(start).as_str(), ",", format_usize(count).as_str())
    }
}

/// Whether a line looks like the start of a definition.
pub open spec fn definition_like(line: Seq<char>) -> bool {
    line.len() > 0 && (letter(line[0]) || line[0] == '_' || line[0] == '$')
}

/// The nearest definition-like line of the old side before `start`, with a space in front.
pub open spec fn definition_before(edits: Seq<(Op, Seq<char>)>, start: int) -> Seq<char>
    decreases start,
{
    if start <= 0 || start > edits.len() {
        ""@
    } else if edits[start - 1].0 != Op::Insert && definition_like(body_of(edits[start - 1].1)) {
        " "@ + trimmed_end(body_of(edits[start - 1].1))
    } else {
        definition_before(edits, start - 1)
    }
}

fn enclosing_definition(edits: &[Edit], start: usize) -> (r: String)
    requires
        start <= edits@.len(),
    ensures
        r@ == definition_before(script_of(edits@), start as int),
{
    let mut i: usize = start;
    while i > 0
        invariant
            i <= start <= edits@.len(),
            definition_before(script_of(edits@), start as int) == definition_before(
                script_of(edits@),
                i as int,
            ),
        decreases i,
    {
        let line = body(edits[i - 1].text.as_str());
        if edits[i - 1].op != Op::Insert {
            let cs = chars_of(line.as_str());
            if cs.len() > 0 && (is_alphabetic(cs[0]) || cs[0] == '_' || cs[0] == '$') {
                return join2(" ", trim_end(line.as_str()).as_str());
            }
        }
        i -= 1;
    }
    copy_text("")
}

/// One line of a hunk.
pub open spec fn edit_line(e: (Op, Seq<char>)) -> Seq<char> {
    let mark = match e.0 {
        Op::Keep => " "@,
        Op::Delete => "-"@,
        Op::Insert => "+"@,
    };
    let tail = if ends(e.1, "\n"@) {
        ""@
    } else {
        "\\ No newline at end of file\n"@
    };
    mark + body_of(e.1) + "\n"@ + tail
}

/// The lines of a hunk.
pub open spec fn edit_lines(edits: Seq<(Op, Seq<char>)>) -> Seq<char>
    decreases edits.len(),
{
    if edits.len() == 0 {
        seq![]
    } else {
        edit_lines(edits.drop_last()) + edit_line(edits.last())
    }
}

fn render_edit(e: &Edit) -> (r: String)
    ensures
        r@ == edit_line(e@),
{
    let mark = match e.op {
        Op::Keep => " ",
        Op::Delete => "-",
        Op::Insert => "+",
    };
    let tail = if ends_with(e.text.as_str(), "\n") {
        ""
    } else {
        "\\ No newline at end of file\n"
    };
    let mut out = join3(mark, body(e.text.as_str()).as_str(), "\n");
    out.append(tail);
    out
}

/// Where a side of a hunk starts: the number of its first line, or of the line before it where
/// the side is empty.
pub open spec fn hunk_start(before: nat, count: nat) -> int {
    if count == 0 {
        before as int
    } else {
        before as int + 1
    }
}

/// The hunk of `edits[start..end]`.
pub open spec fn hunk_text(edits: Seq<(Op, Seq<char>)>, start: int, end: int) -> Seq<char> {
    let inside = edits.subrange(start, end);
    let old_count = held(inside, Op::Insert);
    let new_count = held(inside, Op::Delete);
    let old_start = hunk_start(held(edits.subrange(0, start), Op::Insert), old_count);
    let new_start = hunk_start(held(edits.subrange(0, start), Op::Delete), new_count);
    "@@ -"@ + range_text(old_start, old_count as int) + " +"@ + range_text(
        new_start,
        new_count as int,
    ) + " @@"@ + definition_before(edits, start) + "\n"@ + edit_lines(inside)
}

fn render_hunk(edits: &[Edit], start: usize, end: usize) -> (r: String)
    requires
        start <= end <= edits@.len(),
    ensures
        r@ == hunk_text(script_of(edits@), start as int, end as int),
{
    let ghost all = script_of(edits@);
    let old_count = count_held(edits, Op::Insert, start, end);
    let new_count = count_held(edits, Op::Delete, start, end);
    let old_before = count_held(edits, Op::Insert, 0, start);
    let new_before = count_held(edits, Op::Delete, 0, start);
    let old_start: usize = if old_count == 0 {
        old_before
    } else {
        old_before + 1
    };
    let new_start: usize = if new_count == 0 {
        new_before
    } else {
        new_before + 1
    };
    let mut out = join2("@@ -", range(old_start, old_count).as_str());
    out.append(" +");
    out.append(range(new_start, new_count).as_str());
    out.append(" @@");
    out.append(enclosing_definition(edits, start).as_str());
    out.append("\n");
    let ghost head = out@;
    let ghost inside = all.subrange(start as int, end as int);
    let mut i: usize = start;
    assert(head + edit_lines(inside.take(0)) == head);
    while i < end
        invariant
            start <= i <= end <= edits@.len(),
            all == script_of(edits@),
            inside == all.subrange(start as int, end as int),
            out@ == head + edit_lines(inside.take(i - start)),
        decreases end - i,
    {
        out.append(render_edit(&edits[i]).as_str());
        assert(inside.take(i + 1 - start).drop_last() == inside.take(i - start));
        assert(inside.take(i + 1 - start).last() == edits@[i as int]@);
        assert(head + (edit_lines(inside.take(i - start)) + edit_line(edits@[i as int]@)) == head
            + edit_lines(inside.take(i - start)) + edit_line(edits@[i as int]@));
        i += 1;
    }
    assert(inside.take(end - start) == inside);
    out
}

/// The positions of the entries of `edits[..n]` that change something.
pub open spec fn changed_positions(edits: Seq<(Op, Seq<char>)>, n: int) -> Seq<int>
    decreases n,
{
    if n <= 0 {
        seq![]
    } else if edits[n - 1].0 != Op::Keep {
        changed_positions(edits, n - 1).push(n - 1)
    } else {
        changed_positions(edits, n - 1)
    }
}

/// The last change that shares a hunk with the change `index`: each next one joins while at most
/// twice the context stands between.
pub open spec fn last_in_hunk(changed: Seq<int>, index: int, context: int) -> int
    decreases changed.len() - index,
{
    if 0 <= index && index + 1 < changed.len() && changed[index + 1] <= changed[index] + 2 * context
        + 1 {
        last_in_hunk(changed, index + 1, context)
    } else {
        index
    }
}

/// The last change of a hunk is a change at or after the first.
pub proof fn lemma_last_in_hunk(changed: Seq<int>, index: int, context: int)
    requires
        0 <= index < changed.len(),
    ensures
        index <= last_in_hunk(changed, index, context) < changed.len(),
    decreases changed.len() - index,
{
    if index + 1 < changed.len() && changed[index + 1] <= changed[index] + 2 * context + 1 {
        lemma_last_in_hunk(changed, index + 1, context);
    }
}

/// The hunks from the change `index` on.
pub open spec fn hunks_from(
    edits: Seq<(Op, Seq<char>)>,
    changed: Seq<int>,
    index: int,
    context: int,
) -> Seq<char>
    decreases changed.len() - index,
{
    if index < 0 || index >= changed.len() {
        seq![]
    } else {
        proof {
            lemma_last_in_hunk(changed, index, context);
        }
        let last = last_in_hunk(changed, index, context);
        let start = if changed[index] >= context {
            changed[index] - context
        } else {
            0
        };
        let end = if changed[last] + context + 1 <= edits.len() {
            changed[last] + context + 1
        } else {
            edits.len() as int
        };
        hunk_text(edits, start, end) + hunks_from(edits, changed, last + 1, context)
    }
}

/// The unified hunks of a script.
pub open spec fn hunks_text(edits: Seq<(Op, Seq<char>)>, context: int) -> Seq<char> {
    hunks_from(edits, changed_positions(edits, edits.len() as int), 0, context)
}

/// The integer values of a list of positions.
pub open spec fn positions(v: Seq<usize>) -> Seq<int> {
    v.map_values(|n: usize| n as int)
}

fn changed_list(edits: &[Edit]) -> (r: Vec<usize>)
    ensures
        positions(r@) == changed_positions(script_of(edits@), edits@.len() as int),
        forall|i: int| 0 <= i < r@.len() ==> #[trigger] r@[i] < edits@.len(),
        forall|i: int, j: int| 0 <= i <= j < r@.len() ==> #[trigger] r@[i] <= #[trigger] r@[j],
{
    let ghost all = script_of(edits@);
    let mut out: Vec<usize> = Vec::new();
    let mut i: usize = 0;
    assert(positions(out@) == changed_positions(all, 0));
    while i < edits.len()
        invariant
            i <= edits.len(),
            all == script_of(edits@),
            positions(out@) == changed_positions(all, i as int),
            forall|k: int| 0 <= k < out@.len() ==> #[trigger] out@[k] < i,
            forall|k: int, j: int|
                0 <= k <= j < out@.len() ==> #[trigger] out@[k] <= #[trigger] out@[j],
        decreases edits.len() - i,
    {
        assert(all[i as int] == edits@[i as int]@);
        if edits[i].op != Op::Keep {
            let ghost was = out@;
            out.push(i);
            assert(positions(out@) == positions(was).push(i as int));
        }
        i += 1;
    }
    out
}

/// Groups an edit script into unified hunks.
pub fn render_hunks(edits: &[Edit], context: usize) -> (r: String)
    ensures
        r@ == hunks_text(script_of(edits@), context as int),
{
    let ghost all = script_of(edits@);
    let changed = changed_list(edits);
    let ghost at = positions(changed@);
    let mut out = String::new();
    let mut index: usize = 0;
    assert(out@ + hunks_from(all, at, 0, context as int) == hunks_from(all, at, 0, context as int));
    while index < changed.len()
        invariant
            index <= changed.len(),
            all == script_of(edits@),
            at == positions(changed@),
            forall|i: int| 0 <= i < changed@.len() ==> #[trigger] changed@[i] < edits@.len(),
            forall|i: int, j: int|
                0 <= i <= j < changed@.len() ==> #[trigger] changed@[i] <= #[trigger] changed@[j],
            out@ + hunks_from(all, at, index as int, context as int) == hunks_from(
                all,
                at,
                0,
                context as int,
            ),
        decreases changed.len() - index,
    {
        let first: usize = index;
        let start: usize = if changed[index] >= context {
            changed[index] - context
        } else {
            0
        };
        while index + 1 < changed.len() && (changed[index + 1] as u128) <= (changed[index] as u128)
            + 2 * (context as u128) + 1
            invariant
                first <= index < changed.len(),
                at == positions(changed@),
                last_in_hunk(at, first as int, context as int) == last_in_hunk(
                    at,
                    index as int,
                    context as int,
                ),
            decreases changed.len() - index,
        {
            assert(at[index + 1] == changed@[index + 1]);
            assert(at[index as int] == changed@[index as int]);
            index += 1;
        }
        assert(at[index as int] == changed@[index as int]);
        assert(at[first as int] == changed@[first as int]);
        let end: usize = if context < edits.len() - changed[index] {
            changed[index] + context + 1
        } else {
            edits.len()
        };
        assert(changed@[first as int] <= changed@[index as int]);
        let ghost was = out@;
        out.append(render_hunk(edits, start, end).as_str());
        assert(last_in_hunk(at, first as int, context as int) == index);
        assert(was + (hunk_text(all, start as int, end as int) + hunks_from(
            all,
            at,
            index + 1,
            context as int,
        )) == was + hunk_text(all, start as int, end as int) + hunks_from(
            all,
            at,
            index + 1,
            context as int,
        ));
        index += 1;
    }
    assert(out@ + hunks_from(all, at, index as int, context as int) == out@);
    out
}

/// How one side of a binary file is called.
pub open spec fn side_name(side: Option<Seq<u8>>, label: Seq<char>, path: Seq<char>) -> Seq<char> {
    if side is Some {
        label + path
    } else {
        "/dev/null"@
    }
}

fn name_of_side(side: Option<&[u8]>, label: &str, path: &str) -> (r: String)
    ensures
        r@ == side_name(content(side), label@, path@),
{
    if side.is_some() {
        join2(label, path)
    } else {
        copy_text("/dev/null")
    }
}

/// Whether an optional file is binary.
pub open spec fn side_binary(side: Option<Seq<u8>>) -> bool {
    match side {
        Some(d) => binary(d),
        None => false,
    }
}

/// The unified diff of one file.
pub open spec fn patch_text(
    path: Seq<char>,
    old: Option<Seq<u8>>,
    new: Option<Seq<u8>>,
    context: int,
    prefixes: bool,
) -> Seq<char> {
    let (left, right) = side_labels(prefixes);
    if old == new {
        seq![]
    } else if side_binary(old) || side_binary(new) {
        header_text(path, old, new, prefixes) + "Binary files "@ + side_name(old, left, path)
            + " and "@ + side_name(new, right, path) + " differ\n"@
    } else {
        header_text(path, old, new, prefixes) + "--- "@ + side_name(old, left, path) + "\n"@
            + "+++ "@ + side_name(new, right, path) + "\n"@ + hunks_text(
            file_script(old, new),
            context,
        )
    }
}

fn same_content(a: Option<&[u8]>, b: Option<&[u8]>) -> (r: bool)
    ensures
        r == (content(a) == content(b)),
{
    match (a, b) {
        (Some(x), Some(y)) => same_bytes(x, y),
        (None, None) => true,
        _ => false,
    }
}

fn is_binary_side(side: Option<&[u8]>) -> (r: bool)
    ensures
        r == side_binary(content(side)),
{
    match side {
        Some(d) => is_binary(d),
        None => false,
    }
}

/// Renders one file's unified diff with its header; nothing where the contents are the same.
pub fn render(
    path: &str,
    old: Option<&[u8]>,
    new: Option<&[u8]>,
    context: usize,
    prefixes: bool,
) -> (r: String)
    ensures
        r@ == patch_text(path@, content(old), content(new), context as int, prefixes),
{
    if same_content(old, new) {
        let r = String::new();
        assert(r@ == Seq::<char>::empty());
        return r;
    }
    let (left, right) = labels(prefixes);
    let mut out = header(path, old, new, prefixes);
    if is_binary_side(old) || is_binary_side(new) {
        out.append("Binary files ");
        out.append(name_of_side(old, left, path).as_str());
        out.append(" and ");
        out.append(name_of_side(new, right, path).as_str());
        out.append(" differ\n");
        return out;
    }
    out.append("--- ");
    out.append(name_of_side(old, left, path).as_str());
    out.append("\n");
    out.append("+++ ");
    out.append(name_of_side(new, right, path).as_str());
    out.append("\n");
    let edits = script_between(old, new);
    out.append(render_hunks(edits.as_slice(), context).as_str());
    out
}

/// The complaint about one inserted line with trailing white space.
pub open spec fn whitespace_line(path: Seq<char>, number: nat, line: Seq<char>) -> Seq<char> {
    path + ":"@ + decimal(number) + ": trailing whitespace.\n+"@ + line + "\n"@
}

/// The complaints about trailing white space in the inserted lines among the first entries.
pub open spec fn whitespace_text(path: Seq<char>, edits: Seq<(Op, Seq<char>)>) -> Seq<char>
    decreases edits.len(),
{
    if edits.len() == 0 {
        seq![]
    } else {
        let head = whitespace_text(path, edits.drop_last());
        let line = body_of(edits.last().1);
        if edits.last().0 == Op::Insert && (ends(line, " "@) || ends(line, "\t"@)) {
            head + whitespace_line(path, held(edits, Op::Delete), line)
        } else {
            head
        }
    }
}

/// Reports trailing white space that the new side introduces.
pub fn whitespace_errors(path: &str, old: Option<&[u8]>, new: Option<&[u8]>) -> (r: String)
    ensures
        r@ == whitespace_text(path@, file_script(content(old), content(new))),
{
    let edits = script_between(old, new);
    let ghost all = script_of(edits@);
    let mut out = String::new();
    let mut number: usize = 0;
    let mut i: usize = 0;
    while i < edits.len()
        invariant
            i <= edits.len(),
            all == script_of(edits@),
            number <= i,
            number == held(all.take(i as int), Op::Delete),
            out@ == whitespace_text(path@, all.take(i as int)),
        decreases edits.len() - i,
    {
        assert(all.take(i + 1).drop_last() == all.take(i as int));
        assert(all.take(i + 1).last() == edits@[i as int]@);
        if edits[i].op != Op::Delete {
            number += 1;
        }
        let line = body(edits[i].text.as_str());
        if edits[i].op == Op::Insert && (ends_with(line.as_str(), " ") || ends_with(
            line.as_str(),
            "\t",
        )) {
            let mut text = join3(path, ":", format_usize(number).as_str());
            text.append(": trailing whitespace.\n+");
            text.append(line.as_str());
            text.append("\n");
            out.append(text.as_str());
        }
        i += 1;
    }
    assert(all.take(i as int) == all);
    out
}

// ---------------------------------------------------------------------------
// What scripts are for
// ---------------------------------------------------------------------------

/// The lines of a script other than those under `skip`.
pub open spec fn side(edits: Seq<(Op, Seq<char>)>, skip: Op) -> Seq<Seq<char>>
    decreases edits.len(),
{
    if edits.len() == 0 {
        seq![]
    } else if edits.last().0 != skip {
        side(edits.drop_last(), skip).push(edits.last().1)
    } else {
        side(edits.drop_last(), skip)
    }
}

/// Whether `edits` turns `a` into `b`: without its insertions it holds `a`, without its deletions
/// it holds `b`.
pub open spec fn turns(edits: Seq<(Op, Seq<char>)>, a: Seq<Seq<char>>, b: Seq<Seq<char>>) -> bool {
    side(edits, Op::Insert) == a && side(edits, Op::Delete) == b
}

/// The sides of two scripts one after the other are the sides of each, one after the other.
pub proof fn lemma_side_concat(x: Seq<(Op, Seq<char>)>, y: Seq<(Op, Seq<char>)>, skip: Op)
    ensures
        side(x + y, skip) == side(x, skip) + side(y, skip),
        counted(x + y, skip) == counted(x, skip) + counted(y, skip),
    decreases y.len(),
{
    if y.len() == 0 {
        assert(x + y == x);
        assert(side(x, skip) + seq![] == side(x, skip));
    } else {
        lemma_side_concat(x, y.drop_last(), skip);
        assert((x + y).drop_last() == x + y.drop_last());
        assert((x + y).last() == y.last());
        assert((side(x, skip) + side(y.drop_last(), skip)).push(y.last().1) == side(x, skip)
            + side(y.drop_last(), skip).push(y.last().1));
    }
}

proof fn lemma_side_one(e: (Op, Seq<char>), skip: Op)
    ensures
        side(seq![e], skip) == (if e.0 != skip {
            seq![e.1]
        } else {
            seq![]
        }),
        counted(seq![e], skip) == (if e.0 == skip {
            1nat
        } else {
            0nat
        }),
{
    assert(seq![e].drop_last() =~= seq![]);
    assert(side(seq![], skip) == Seq::<Seq<char>>::empty());
    assert(counted(seq![], skip) == 0);
    assert(seq![].push(e.1) =~= seq![e.1]);
}

proof fn lemma_side_tagged(op: Op, lines: Seq<Seq<char>>, skip: Op)
    ensures
        side(tagged(op, lines), skip) == (if op != skip {
            lines
        } else {
            seq![]
        }),
        counted(tagged(op, lines), skip) == (if op == skip {
            lines.len()
        } else {
            0
        }),
    decreases lines.len(),
{
    let t = tagged(op, lines);
    if lines.len() > 0 {
        lemma_side_tagged(op, lines.drop_last(), skip);
        assert(t.drop_last() == tagged(op, lines.drop_last()));
        assert(lines.drop_last().push(lines.last()) == lines);
    } else {
        assert(t =~= seq![]);
    }
}

proof fn lemma_aligned_turns(a: Seq<Seq<char>>, b: Seq<Seq<char>>, i: int, j: int)
    requires
        0 <= i <= a.len(),
        0 <= j <= b.len(),
    ensures
        turns(
            aligned(a, b, i, j),
            a.subrange(i, a.len() as int),
            b.subrange(j, b.len() as int),
        ),
        counted(aligned(a, b, i, j), Op::Keep) == lcs(a, b, i, j),
    decreases a.len() - i + b.len() - j,
{
    let x = a.subrange(i, a.len() as int);
    let y = b.subrange(j, b.len() as int);
    if i < a.len() && j < b.len() {
        let (e, rest, i2, j2) = if a[i] == b[j] {
            ((Op::Keep, a[i]), aligned(a, b, i + 1, j + 1), i + 1, j + 1)
        } else if lcs(a, b, i + 1, j) >= lcs(a, b, i, j + 1) {
            ((Op::Delete, a[i]), aligned(a, b, i + 1, j), i + 1, j)
        } else {
            ((Op::Insert, b[j]), aligned(a, b, i, j + 1), i, j + 1)
        };
        lemma_aligned_turns(a, b, i2, j2);
        lemma_side_concat(seq![e], rest, Op::Insert);
        lemma_side_concat(seq![e], rest, Op::Delete);
        lemma_side_concat(seq![e], rest, Op::Keep);
        lemma_side_one(e, Op::Insert);
        lemma_side_one(e, Op::Delete);
        lemma_side_one(e, Op::Keep);
        assert(x =~= seq![a[i]] + a.subrange(i + 1, a.len() as int));
        assert(y =~= seq![b[j]] + b.subrange(j + 1, b.len() as int));
        assert(seq![] + x =~= x);
        assert(seq![] + y =~= y);
    } else {
        let d = tagged(Op::Delete, x);
        let n = tagged(Op::Insert, y);
        lemma_side_concat(d, n, Op::Insert);
        lemma_side_concat(d, n, Op::Delete);
        lemma_side_concat(d, n, Op::Keep);
        lemma_side_tagged(Op::Delete, x, Op::Insert);
        lemma_side_tagged(Op::Delete, x, Op::Delete);
        lemma_side_tagged(Op::Delete, x, Op::Keep);
        lemma_side_tagged(Op::Insert, y, Op::Insert);
        lemma_side_tagged(Op::Insert, y, Op::Delete);
        lemma_side_tagged(Op::Insert, y, Op::Keep);
        assert(x + seq![] =~= x);
        assert(seq![] + y =~= y);
    }
}

proof fn lemma_middle_turns(a: Seq<Seq<char>>, b: Seq<Seq<char>>)
    ensures
        turns(middle_script(a, b), a, b),
{
    if a.len() > MAX_ALIGNED_LINES || b.len() > MAX_ALIGNED_LINES {
        let d = tagged(Op::Delete, a);
        let n = tagged(Op::Insert, b);
        lemma_side_concat(d, n, Op::Insert);
        lemma_side_concat(d, n, Op::Delete);
        lemma_side_tagged(Op::Delete, a, Op::Insert);
        lemma_side_tagged(Op::Delete, a, Op::Delete);
        lemma_side_tagged(Op::Insert, b, Op::Insert);
        lemma_side_tagged(Op::Insert, b, Op::Delete);
        assert(a + seq![] =~= a);
        assert(seq![] + b =~= b);
    } else {
        lemma_aligned_turns(a, b, 0, 0);
        assert(a.subrange(0, a.len() as int) =~= a);
        assert(b.subrange(0, b.len() as int) =~= b);
    }
}

/// The edit script of `a` and `b` turns `a` into `b`: the lines that it keeps and deletes are
/// `a`, the lines that it keeps and inserts are `b`.
pub proof fn lemma_script_turns(a: Seq<Seq<char>>, b: Seq<Seq<char>>)
    ensures
        turns(script(a, b), a, b),
{
    let p = common_prefix(a, b) as int;
    lemma_prefix_bound(a, b);
    let x = a.subrange(p, a.len() as int);
    let y = b.subrange(p, b.len() as int);
    let q = common_suffix(x, y) as int;
    lemma_suffix_bound(x, y);
    let head = a.subrange(0, p);
    let am = a.subrange(p, a.len() - q);
    let bm = b.subrange(p, b.len() - q);
    let tail = a.subrange(a.len() - q, a.len() as int);
    assert(head =~= b.subrange(0, p));
    assert(tail =~= b.subrange(b.len() - q, b.len() as int)) by {
        assert forall|i: int| 0 <= i < q implies tail[i] == b[b.len() - q + i] by {
            let k = q - 1 - i;
            assert(x[x.len() - 1 - k] == y[y.len() - 1 - k]);
        }
    }
    let h = tagged(Op::Keep, head);
    let m = middle_script(am, bm);
    let t = tagged(Op::Keep, tail);
    lemma_middle_turns(am, bm);
    lemma_side_concat(h, m, Op::Insert);
    lemma_side_concat(h, m, Op::Delete);
    lemma_side_concat(h + m, t, Op::Insert);
    lemma_side_concat(h + m, t, Op::Delete);
    lemma_side_tagged(Op::Keep, head, Op::Insert);
    lemma_side_tagged(Op::Keep, head, Op::Delete);
    lemma_side_tagged(Op::Keep, tail, Op::Insert);
    lemma_side_tagged(Op::Keep, tail, Op::Delete);
    assert(head + am + tail =~= a);
    assert(head + bm + tail =~= b);
}

/// Dropping one line from either side changes the longest common subsequence by at most one.
proof fn lemma_lcs_step(a: Seq<Seq<char>>, b: Seq<Seq<char>>, i: int, j: int)
    requires
        0 <= i <= a.len(),
        0 <= j <= b.len(),
    ensures
        i < a.len() ==> lcs(a, b, i + 1, j) <= lcs(a, b, i, j) <= 1 + lcs(a, b, i + 1, j),
        j < b.len() ==> lcs(a, b, i, j + 1) <= lcs(a, b, i, j) <= 1 + lcs(a, b, i, j + 1),
    decreases a.len() - i + b.len() - j,
{
    if i < a.len() && j < b.len() {
        lemma_lcs_step(a, b, i + 1, j);
        lemma_lcs_step(a, b, i, j + 1);
        lemma_lcs_step(a, b, i + 1, j + 1);
    }
}

/// No script from `a[i..]` to `b[j..]` keeps more lines than the longest common subsequence.
proof fn lemma_lcs_upper(
    edits: Seq<(Op, Seq<char>)>,
    a: Seq<Seq<char>>,
    b: Seq<Seq<char>>,
    i: int,
    j: int,
)
    requires
        0 <= i <= a.len(),
        0 <= j <= b.len(),
        turns(edits, a.subrange(i, a.len() as int), b.subrange(j, b.len() as int)),
    ensures
        counted(edits, Op::Keep) <= lcs(a, b, i, j),
    decreases edits.len(),
{
    let x = a.subrange(i, a.len() as int);
    let y = b.subrange(j, b.len() as int);
    if edits.len() > 0 {
        let e = edits[0];
        let rest = edits.subrange(1, edits.len() as int);
        assert(edits =~= seq![e] + rest);
        lemma_side_concat(seq![e], rest, Op::Insert);
        lemma_side_concat(seq![e], rest, Op::Delete);
        lemma_side_concat(seq![e], rest, Op::Keep);
        lemma_side_one(e, Op::Insert);
        lemma_side_one(e, Op::Delete);
        lemma_side_one(e, Op::Keep);
        let i2 = if e.0 == Op::Insert {
            i
        } else {
            i + 1
        };
        let j2 = if e.0 == Op::Delete {
            j
        } else {
            j + 1
        };
        if e.0 != Op::Insert {
            let r = side(rest, Op::Insert);
            assert(x == seq![e.1] + r);
            assert(x[0] == e.1);
            assert((seq![e.1] + r).subrange(1, 1 + r.len() as int) =~= r);
            assert(x.subrange(1, x.len() as int) =~= a.subrange(i + 1, a.len() as int));
            assert(r == a.subrange(i + 1, a.len() as int));
        } else {
            assert(side(rest, Op::Insert) =~= x);
        }
        if e.0 != Op::Delete {
            let r = side(rest, Op::Delete);
            assert(y == seq![e.1] + r);
            assert(y[0] == e.1);
            assert((seq![e.1] + r).subrange(1, 1 + r.len() as int) =~= r);
            assert(y.subrange(1, y.len() as int) =~= b.subrange(j + 1, b.len() as int));
            assert(r == b.subrange(j + 1, b.len() as int));
        } else {
            assert(side(rest, Op::Delete) =~= y);
        }
        lemma_lcs_upper(rest, a, b, i2, j2);
        lemma_lcs_step(a, b, i, j);
    }
}

/// Setting a common last line aside lowers the longest common subsequence by exactly one.
proof fn lemma_lcs_last(a: Seq<Seq<char>>, b: Seq<Seq<char>>, i: int, j: int)
    requires
        a.len() > 0,
        b.len() > 0,
        a.last() == b.last(),
        0 <= i < a.len(),
        0 <= j < b.len(),
    ensures
        lcs(a, b, i, j) == 1 + lcs(a.drop_last(), b.drop_last(), i, j),
    decreases a.len() - i + b.len() - j,
{
    let x = a.drop_last();
    let y = b.drop_last();
    let m = a.len() - 1;
    let n = b.len() - 1;
    if i < m && j < n {
        assert(x[i] == a[i]);
        assert(y[j] == b[j]);
        if a[i] == b[j] {
            lemma_lcs_last(a, b, i + 1, j + 1);
        } else {
            lemma_lcs_last(a, b, i + 1, j);
            lemma_lcs_last(a, b, i, j + 1);
        }
    } else if i == m && j == n {
        assert(a[i] == b[j]);
        assert(lcs(a, b, i + 1, j + 1) == 0);
        assert(lcs(x, y, i, j) == 0);
    } else if i == m {
        assert(lcs(a, b, i + 1, j + 1) == 0);
        assert(lcs(a, b, i + 1, j) == 0);
        assert(lcs(x, y, i, j) == 0);
        assert(lcs(x, y, i, j + 1) == 0);
        if a[i] != b[j] {
            lemma_lcs_last(a, b, i, j + 1);
        }
    } else {
        assert(lcs(a, b, i + 1, j + 1) == 0);
        assert(lcs(a, b, i, j + 1) == 0);
        assert(lcs(x, y, i, j) == 0);
        assert(lcs(x, y, i + 1, j) == 0);
        if a[i] != b[j] {
            lemma_lcs_last(a, b, i + 1, j);
        }
    }
}

/// Setting the common end aside lowers the longest common subsequence by its length.
proof fn lemma_lcs_suffix(a: Seq<Seq<char>>, b: Seq<Seq<char>>)
    ensures
        lcs(a, b, 0, 0) == common_suffix(a, b) + lcs(
            a.take(a.len() - common_suffix(a, b)),
            b.take(b.len() - common_suffix(a, b)),
            0,
            0,
        ),
    decreases a.len(),
{
    if a.len() > 0 && b.len() > 0 && a.last() == b.last() {
        lemma_lcs_last(a, b, 0, 0);
        lemma_lcs_suffix(a.drop_last(), b.drop_last());
        lemma_suffix_bound(a.drop_last(), b.drop_last());
        let k = common_suffix(a.drop_last(), b.drop_last());
        assert(a.drop_last().take(a.drop_last().len() - k) =~= a.take(a.len() - (k + 1)));
        assert(b.drop_last().take(b.drop_last().len() - k) =~= b.take(b.len() - (k + 1)));
    } else {
        assert(a.take(a.len() as int) =~= a);
        assert(b.take(b.len() as int) =~= b);
    }
}

/// The subsequence length from `i` and `j` on depends only on what stands there.
proof fn lemma_lcs_shift(a: Seq<Seq<char>>, b: Seq<Seq<char>>, p: int, i: int, j: int)
    requires
        0 <= p <= i <= a.len(),
        p <= j <= b.len(),
    ensures
        lcs(a, b, i, j) == lcs(
            a.subrange(p, a.len() as int),
            b.subrange(p, b.len() as int),
            i - p,
            j - p,
        ),
    decreases a.len() - i + b.len() - j,
{
    if i < a.len() && j < b.len() {
        if a[i] == b[j] {
            lemma_lcs_shift(a, b, p, i + 1, j + 1);
        } else {
            lemma_lcs_shift(a, b, p, i + 1, j);
            lemma_lcs_shift(a, b, p, i, j + 1);
        }
    }
}

proof fn lemma_lcs_prefix(a: Seq<Seq<char>>, b: Seq<Seq<char>>, p: int)
    requires
        0 <= p <= a.len(),
        p <= b.len(),
        forall|i: int| 0 <= i < p ==> #[trigger] a[i] == b[i],
    ensures
        lcs(a, b, 0, 0) == p + lcs(a, b, p, p),
    decreases p,
{
    if p > 0 {
        lemma_lcs_prefix(a, b, p - 1);
        assert(a[p - 1] == b[p - 1]);
    }
}

/// How many lines at the start and at the end the two sides have in common.
pub open spec fn common_ends(a: Seq<Seq<char>>, b: Seq<Seq<char>>) -> int {
    let p = common_prefix(a, b) as int;
    p + common_suffix(a.subrange(p, a.len() as int), b.subrange(p, b.len() as int))
}

/// Where what is left between the common ends is short enough to be aligned, no script that turns `a`
/// into `b` keeps more lines than the edit script does.
pub proof fn lemma_script_keeps_most(
    a: Seq<Seq<char>>,
    b: Seq<Seq<char>>,
    other: Seq<(Op, Seq<char>)>,
)
    requires
        turns(other, a, b),
        a.len() - common_ends(a, b) <= MAX_ALIGNED_LINES,
        b.len() - common_ends(a, b) <= MAX_ALIGNED_LINES,
    ensures
        counted(other, Op::Keep) <= counted(script(a, b), Op::Keep),
{
    let p = common_prefix(a, b) as int;
    lemma_prefix_bound(a, b);
    let x = a.subrange(p, a.len() as int);
    let y = b.subrange(p, b.len() as int);
    let q = common_suffix(x, y) as int;
    lemma_suffix_bound(x, y);
    let head = a.subrange(0, p);
    let am = a.subrange(p, a.len() - q);
    let bm = b.subrange(p, b.len() - q);
    let tail = a.subrange(a.len() - q, a.len() as int);
    let h = tagged(Op::Keep, head);
    let m = middle_script(am, bm);
    let t = tagged(Op::Keep, tail);
    lemma_side_concat(h, m, Op::Keep);
    lemma_side_concat(h + m, t, Op::Keep);
    lemma_side_tagged(Op::Keep, head, Op::Keep);
    lemma_side_tagged(Op::Keep, tail, Op::Keep);
    lemma_aligned_turns(am, bm, 0, 0);
    lemma_lcs_prefix(a, b, p);
    lemma_lcs_shift(a, b, p, p, p);
    lemma_lcs_suffix(x, y);
    assert(x.take(x.len() - q) =~= am);
    assert(y.take(y.len() - q) =~= bm);
    assert(a.subrange(0, a.len() as int) =~= a);
    assert(b.subrange(0, b.len() as int) =~= b);
    lemma_lcs_upper(other, a, b, 0, 0);
}

/// The script of equal sides changes nothing.
pub proof fn lemma_script_of_same(a: Seq<Seq<char>>)
    ensures
        script(a, a) == tagged(Op::Keep, a),
{
    lemma_prefix_of_same(a);
    let rest = a.subrange(a.len() as int, a.len() as int);
    assert(rest =~= seq![]);
    assert(tagged(Op::Keep, a.subrange(0, a.len() as int)) + aligned(seq![], seq![], 0, 0)
        + tagged(Op::Keep, rest) =~= tagged(Op::Keep, a));
}

proof fn lemma_prefix_of_same(a: Seq<Seq<char>>)
    ensures
        common_prefix(a, a) == a.len(),
    decreases a.len(),
{
    if a.len() > 0 {
        lemma_prefix_of_same(a.subrange(1, a.len() as int));
    }
}

/// A script keeps, deletes and inserts as many lines as its sides hold.
pub proof fn lemma_change_counts(a: Seq<Seq<char>>, b: Seq<Seq<char>>)
    ensures
        counted(script(a, b), Op::Keep) + counted(script(a, b), Op::Delete) == a.len(),
        counted(script(a, b), Op::Keep) + counted(script(a, b), Op::Insert) == b.len(),
{
    lemma_script_turns(a, b);
    lemma_counts_are_sides(script(a, b));
}

proof fn lemma_counts_are_sides(edits: Seq<(Op, Seq<char>)>)
    ensures
        counted(edits, Op::Keep) + counted(edits, Op::Delete) == side(edits, Op::Insert).len(),
        counted(edits, Op::Keep) + counted(edits, Op::Insert) == side(edits, Op::Delete).len(),
    decreases edits.len(),
{
    if edits.len() > 0 {
        lemma_counts_are_sides(edits.drop_last());
    }
}

/// A rendered diff is empty exactly where the contents are the same.
pub proof fn lemma_patch_empty(
    path: Seq<char>,
    old: Option<Seq<u8>>,
    new: Option<Seq<u8>>,
    context: int,
    prefixes: bool,
)
    ensures
        patch_text(path, old, new, context, prefixes).len() == 0 <==> old == new,
{
    reveal_strlit("diff --git ");
    if old != new {
        assert(header_text(path, old, new, prefixes).len() > 0);
    }
}

} // verus!
