//! The rail that a graph of the history draws down the left of the output.

use vstd::prelude::*;

use crate::text::{copy_text, join3, lemma_texts_push, pieces, same, split, texts};

verus! {

/// Where the lines of one commit stand on the rail.
pub struct Rung {
    /// What stands before the first line of the commit.
    pub first: String,
    /// What stands before its other lines.
    pub rest: String,
    /// The lines that follow the commit.
    pub connectors: String,
}

/// Where the lines of one commit stand on the rail.
#[verifier::ext_equal]
pub struct Step {
    pub first: Seq<char>,
    pub rest: Seq<char>,
    pub connectors: Seq<char>,
}

impl View for Rung {
    type V = Step;

    open spec fn view(&self) -> Step {
        Step { first: self.first@, rest: self.rest@, connectors: self.connectors@ }
    }
}

/// The rail: one column for each commit that is still to come.
pub struct Rail {
    columns: Vec<String>,
}

impl View for Rail {
    type V = Seq<Seq<char>>;

    closed spec fn view(&self) -> Seq<Seq<char>> {
        texts(self.columns@)
    }
}

/// Text written `n` times over.
pub open spec fn times_over(s: Seq<char>, n: nat) -> Seq<char>
    decreases n,
{
    if n == 0 {
        ""@
    } else {
        times_over(s, (n - 1) as nat) + s
    }
}

fn write_times(s: &str, n: usize) -> (r: String)
    ensures
        r@ == times_over(s@, n as nat),
{
    let mut out = copy_text("");
    let mut i: usize = 0;
    while i < n
        invariant
            i <= n,
            out@ == times_over(s@, i as nat),
        decreases n - i,
    {
        out.append(s);
        i += 1;
    }
    out
}

/// The first column from `i` on that waits for a commit.
pub open spec fn column_from(v: Seq<Seq<char>>, id: Seq<char>, i: int) -> Option<int>
    decreases v.len() - i,
{
    if i < 0 || i >= v.len() {
        None
    } else if v[i] == id {
        Some(i)
    } else {
        column_from(v, id, i + 1)
    }
}

proof fn lemma_column_from(v: Seq<Seq<char>>, id: Seq<char>, i: int)
    requires
        0 <= i,
    ensures
        match column_from(v, id, i) {
            Some(k) => i <= k < v.len() && v[k] == id,
            None => true,
        },
    decreases v.len() - i,
{
    if i < v.len() && v[i] != id {
        lemma_column_from(v, id, i + 1);
    }
}

/// The first column that waits for the same commit as one before it, and that one.
pub open spec fn repeat_from(v: Seq<Seq<char>>, i: int) -> Option<(int, int)>
    decreases v.len() - i,
{
    if i < 0 || i >= v.len() {
        None
    } else {
        match column_from(v.take(i), v[i], 0) {
            Some(k) => Some((i, k)),
            None => repeat_from(v, i + 1),
        }
    }
}

proof fn lemma_repeat_from(v: Seq<Seq<char>>, i: int)
    requires
        0 <= i,
    ensures
        match repeat_from(v, i) {
            Some((at, keep)) => 0 <= keep < at < v.len() && v[keep] == v[at],
            None => forall|a: int, b: int|
                0 <= a < b && i <= b < v.len() ==> #[trigger] v[a] != #[trigger] v[b],
        },
    decreases v.len() - i,
{
    if i < v.len() {
        lemma_column_from(v.take(i), v[i], 0);
        if column_from(v.take(i), v[i], 0) is None {
            lemma_repeat_from(v, i + 1);
            assert forall|a: int| 0 <= a < i implies v[a] != v[i] by {
                lemma_column_absent(v.take(i), v[i], 0, a);
                assert(v.take(i)[a] == v[a]);
            }
        }
    }
}

proof fn lemma_column_absent(v: Seq<Seq<char>>, id: Seq<char>, i: int, a: int)
    requires
        0 <= i <= a < v.len(),
        column_from(v, id, i) is None,
    ensures
        v[a] != id,
    decreases v.len() - i,
{
    if i < a {
        lemma_column_absent(v, id, i + 1, a);
    }
}

/// The columns and the lines after those that wait for the same commit are folded together.
pub open spec fn folded(v: Seq<Seq<char>>, connectors: Seq<char>) -> (Seq<Seq<char>>, Seq<char>)
    decreases v.len(),
{
    match repeat_from(v, 0) {
        None => (v, connectors),
        Some((at, keep)) => if 0 <= at < v.len() && keep >= 0 {
            folded(v.remove(at), connectors + times_over("| "@, keep as nat) + "|/\n"@)
        } else {
            (v, connectors)
        },
    }
}

/// The columns with one for a commit, and which one that is.
pub open spec fn with_column(v: Seq<Seq<char>>, id: Seq<char>) -> (Seq<Seq<char>>, int) {
    match column_from(v, id, 0) {
        Some(k) => (v, k),
        None => (v.push(id), v.len() as int),
    }
}

/// The marks of a row of columns, one of which holds the commit.
pub open spec fn marks(width: nat, column: int) -> Seq<char>
    decreases width,
{
    if width == 0 {
        ""@
    } else {
        marks((width - 1) as nat, column) + (if width - 1 == column {
            "* "@
        } else {
            "| "@
        })
    }
}

/// The columns after a commit is drawn, and where its lines stand. Its parents take its place.
pub open spec fn advanced(v: Seq<Seq<char>>, id: Seq<char>, parents: Seq<Seq<char>>) -> (
    Seq<Seq<char>>,
    Step,
) {
    let (w, column) = with_column(v, id);
    let extra = if parents.len() > 1 {
        (parents.len() - 1) as nat
    } else {
        0
    };
    let fan = if extra > 0 {
        times_over("| "@, column as nat) + "|\\\n"@
    } else {
        ""@
    };
    let (after, connectors) = folded(
        w.take(column) + parents + w.skip(column + 1),
        fan,
    );
    (
        after,
        Step {
            first: marks(w.len(), column) + times_over("  "@, extra),
            rest: times_over("| "@, w.len()),
            connectors,
        },
    )
}

fn mark_row(width: usize, column: usize) -> (r: String)
    ensures
        r@ == marks(width as nat, column as int),
{
    let mut out = copy_text("");
    let mut i: usize = 0;
    while i < width
        invariant
            i <= width,
            out@ == marks(i as nat, column as int),
        decreases width - i,
    {
        if i == column {
            out.append("* ");
        } else {
            out.append("| ");
        }
        i += 1;
    }
    out
}

fn find_column(v: &[String], n: usize, id: &str) -> (r: Option<usize>)
    requires
        n <= v@.len(),
    ensures
        match r {
            Some(k) => column_from(texts(v@).take(n as int), id@, 0) == Some(k as int) && k < n,
            None => column_from(texts(v@).take(n as int), id@, 0) is None,
        },
{
    let ghost all = texts(v@).take(n as int);
    let mut i: usize = 0;
    while i < n
        invariant
            i <= n <= v@.len(),
            all == texts(v@).take(n as int),
            column_from(all, id@, 0) == column_from(all, id@, i as int),
        decreases n - i,
    {
        assert(all[i as int] == v@[i as int]@);
        if same(v[i].as_str(), id) {
            return Some(i);
        }
        i += 1;
    }
    None
}

impl Rail {
    /// A rail without columns.
    pub fn new() -> (r: Self)
        ensures
            r@ == Seq::<Seq<char>>::empty(),
    {
        let r = Rail { columns: Vec::new() };
        assert(r@ =~= Seq::<Seq<char>>::empty());
        r
    }

    /// The first column that waits for the same commit as one before it, and that one.
    fn duplicate(&self) -> (r: Option<(usize, usize)>)
        ensures
            match r {
                Some((at, keep)) => repeat_from(self@, 0) == Some((at as int, keep as int)) && keep
                    < at < self@.len(),
                None => repeat_from(self@, 0) is None,
            },
    {
        let ghost all = self@;
        let mut i: usize = 0;
        while i < self.columns.len()
            invariant
                i <= self.columns@.len(),
                all == self@,
                repeat_from(all, 0) == repeat_from(all, i as int),
            decreases self.columns@.len() - i,
        {
            assert(all[i as int] == self.columns@[i as int]@);
            match find_column(self.columns.as_slice(), i, self.columns[i].as_str()) {
                Some(k) => return Some((i, k)),
                None => {},
            }
            i += 1;
        }
        None
    }

    fn fold(&mut self, connectors: String) -> (r: String)
        ensures
            (final(self)@, r@) == folded(old(self)@, connectors@),
    {
        let mut out = connectors;
        let ghost goal = folded(self@, connectors@);
        loop
            invariant
                goal == folded(old(self)@, connectors@),
                goal == folded(self@, out@),
            decreases self@.len(),
        {
            match self.duplicate() {
                None => return out,
                Some((at, keep)) => {
                    let ghost before = self@;
                    self.columns.remove(at);
                    assert(self@ =~= before.remove(at as int));
                    out.append(write_times("| ", keep).as_str());
                    out.append("|/\n");
                },
            }
        }
    }

    /// Draws a commit and moves the rail on to its parents.
    pub fn advance(&mut self, id: &str, parents: &[String]) -> (r: Rung)
        ensures
            (final(self)@, r@) == advanced(old(self)@, id@, texts(parents@)),
    {
        broadcast use lemma_texts_push;

        let n: usize = self.columns.len();
        assert(texts(self.columns@).take(n as int) =~= self@);
        let column = match find_column(self.columns.as_slice(), n, id) {
            Some(k) => k,
            None => {
                self.columns.push(copy_text(id));
                n
            },
        };
        let ghost w = self@;
        assert((w, column as int) == with_column(old(self)@, id@));
        let width: usize = self.columns.len();
        assert(width == w.len());
        let ghost kin = texts(parents@);
        assert(kin.len() == parents@.len());
        let extra: usize = if parents.len() > 1 {
            parents.len() - 1
        } else {
            0
        };
        let mut first = mark_row(width, column);
        first.append(write_times("  ", extra).as_str());
        let rest = write_times("| ", width);
        let mut next: Vec<String> = Vec::new();
        let mut i: usize = 0;
        while i < column
            invariant
                i <= column < self.columns@.len(),
                w == self@,
                next@.len() == i,
                forall|k: int| 0 <= k < i ==> (#[trigger] next@[k])@ == w[k],
            decreases column - i,
        {
            next.push(copy_text(self.columns[i].as_str()));
            i += 1;
        }
        assert(texts(next@) =~= w.take(column as int));
        let mut j: usize = 0;
        while j < parents.len()
            invariant
                j <= parents@.len(),
                kin == texts(parents@),
                texts(next@) =~= w.take(column as int) + kin.take(j as int),
            decreases parents@.len() - j,
        {
            broadcast use lemma_texts_push;

            next.push(copy_text(parents[j].as_str()));
            assert(kin.take(j + 1) =~= kin.take(j as int).push(kin[j as int]));
            j += 1;
        }
        assert(kin.take(j as int) =~= kin);
        let ghost front = w.take(column as int) + kin;
        let ghost back = w.skip(column + 1);
        let mut k: usize = column + 1;
        while k < width
            invariant
                column + 1 <= k <= width,
                width == self.columns@.len(),
                w == self@,
                back == w.skip(column + 1),
                texts(next@) =~= front + back.take(k - column - 1),
            decreases width - k,
        {
            broadcast use lemma_texts_push;

            next.push(copy_text(self.columns[k].as_str()));
            assert(back.take(k - column) =~= back.take(k - column - 1).push(w[k as int]));
            k += 1;
        }
        assert(back.take(k - column - 1) =~= back);
        let fan = if extra > 0 {
            let mut fan = write_times("| ", column);
            fan.append("|\\\n");
            fan
        } else {
            copy_text("")
        };
        self.columns = next;
        assert(self@ =~= front + back);
        let connectors = self.fold(fan);
        Rung { first, rest, connectors }
    }
}

/// No two columns wait for the same commit once a commit is drawn.
pub proof fn lemma_columns_differ(v: Seq<Seq<char>>, id: Seq<char>, parents: Seq<Seq<char>>)
    ensures
        ({
            let after = advanced(v, id, parents).0;
            forall|a: int, b: int|
                0 <= a < b < after.len() ==> #[trigger] after[a] != #[trigger] after[b]
        }),
{
    let (w, column) = with_column(v, id);
    let fan = if parents.len() > 1 {
        times_over("| "@, column as nat) + "|\\\n"@
    } else {
        ""@
    };
    lemma_folded_differ(w.take(column) + parents + w.skip(column + 1), fan);
}

proof fn lemma_folded_differ(v: Seq<Seq<char>>, connectors: Seq<char>)
    ensures
        ({
            let after = folded(v, connectors).0;
            forall|a: int, b: int|
                0 <= a < b < after.len() ==> #[trigger] after[a] != #[trigger] after[b]
        }),
    decreases v.len(),
{
    lemma_repeat_from(v, 0);
    match repeat_from(v, 0) {
        None => {
            assert(folded(v, connectors).0 == v);
        },
        Some((at, keep)) => {
            let more = connectors + times_over("| "@, keep as nat) + "|/\n"@;
            lemma_folded_differ(v.remove(at), more);
            assert(folded(v, connectors) == folded(v.remove(at), more));
        },
    }
}

/// The lines of a block: what follows the last line end is a line only where it holds something.
pub open spec fn block_lines(block: Seq<char>) -> Seq<Seq<char>> {
    let v = pieces(block, '\n');
    if v.len() > 0 && v.last().len() == 0 {
        v.drop_last()
    } else {
        v
    }
}

/// Lines with their place on the rail before each. The commit itself starts on the line `head`.
pub open spec fn on_rail(v: Seq<Seq<char>>, x: Step, head: int) -> Seq<char>
    decreases v.len(),
{
    if v.len() == 0 {
        ""@
    } else {
        on_rail(v.drop_last(), x, head) + ((if v.len() - 1 == head {
            x.first
        } else {
            x.rest
        }) + v.last() + "\n"@)
    }
}

/// A block with its place on the rail before each line, and the lines that follow it.
pub open spec fn drawn(block: Seq<char>, x: Step, head: int) -> Seq<char> {
    on_rail(block_lines(block), x, head) + x.connectors
}

/// Draws a block on the rail.
pub fn draw_on_rail(block: &str, rung: &Rung, head: usize) -> (r: String)
    ensures
        r@ == drawn(block@, rung@, head as int),
{
    let v = split(block, '\n');
    let ghost whole = texts(v@);
    let mut n: usize = v.len();
    assert(whole.len() == n);
    if n > 0 {
        assert(whole.last() == v@[n - 1]@);
        if v[n - 1].as_str().is_empty() {
            n = n - 1;
        }
    }
    let ghost all = block_lines(block@);
    assert(all =~= whole.take(n as int));
    let mut out = copy_text("");
    let mut i: usize = 0;
    while i < n
        invariant
            i <= n <= v@.len(),
            all.len() == n,
            forall|k: int| 0 <= k < n ==> #[trigger] all[k] == v@[k]@,
            out@ == on_rail(all.take(i as int), rung@, head as int),
        decreases n - i,
    {
        assert(all.take(i + 1).drop_last() =~= all.take(i as int));
        assert(all.take(i + 1).last() == all[i as int]);
        let front = if i == head {
            rung.first.as_str()
        } else {
            rung.rest.as_str()
        };
        out.append(join3(front, v[i].as_str(), "\n").as_str());
        i += 1;
    }
    assert(all.take(i as int) =~= all);
    out.append(rung.connectors.as_str());
    out
}

} // verus!
