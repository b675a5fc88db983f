//! `git apply`: what goes round the patching itself.
//!
//! A patch is turned round, reported on, and recorded in the index here. Between the steps stands
//! the patching of files, which takes the text of a patch and the content of files.

use vstd::prelude::*;
use vstd::utf8::encode_utf8;

use crate::bytes::{bytes_of, decode_lossy, loose_text};
use crate::common::{done, index_needed, require_index};
use crate::compare::{changed_paths, list_changed, summary_line, summary_text};
use crate::console::{
    cannot_write, complained, failed, no_repo, printed, repo_error, write_message, Done, Io, Screen,
};
use crate::names::{overlaid, overlay};
use crate::numbers::{
    decimal, format_usize, pad_left, pad_right, padded_left, padded_right, parse_usize, read_unsigned, repeat,
    repeated,
};
use crate::objects::{blob_hash, blob_id};
use crate::order::{ascending, bind, lemma_lookup_bind, lookup, unbind};
use crate::placing::{act_path, lemma_untouched_stays};
use crate::repo::{
    blob_file, blob_of, blob_stored, find_repo_root, git_file, git_path, head_files, head_tree, index_stored,
    opt_bytes, read_all, read_blob, readable, relative, relative_path, repo_root, store_index, write_blob,
};
use crate::system::{
    acts, after_acts, lemma_acts_push, refusal_text, resolve_against, resolved, settled, Act, FileChange, Machine,
    System,
};
use crate::text::{
    after_prefix, copy_text, copy_texts, cut_once, cut_once_text, join2, join3, join4, join5, lemma_texts_push,
    line_list, lines, opt_text, pieces, same, split, split_once, split_once_text, starts, starts_with, strip_prefix,
    texts, trim_start_matches, without_leading,
};
use crate::trees::{mode_of, serialize_tree, tree_bytes, Entry, Files, Record, Tree};
use crate::worktree::{collect_working_tree, read_work_file, work_content, working_tree};

verus! {

/// The largest patch that is read.
pub const MAX_PATCH_BYTES: usize = 16_777_216;

// ---------------------------------------------------------------------------
// Turning a patch round
// ---------------------------------------------------------------------------

/// The header of a hunk with its two ranges swapped.
pub open spec fn turned_header(line: Seq<char>, rest: Seq<char>) -> Seq<char> {
    match cut_once_text(rest, " @@"@) {
        Some((ranges, tail)) => match cut_once(ranges, ' ') {
            Some((a, b)) => "@@ -"@ + without_leading(b, '+') + " +"@ + without_leading(a, '-')
                + " @@"@ + tail,
            None => line,
        },
        None => line,
    }
}

/// A line of a patch turned round.
pub open spec fn turned_line(line: Seq<char>) -> Seq<char> {
    match after_prefix(line, "@@ "@) {
        Some(rest) => turned_header(line, rest),
        None => match after_prefix(line, "+"@) {
            Some(rest) => "-"@ + rest,
            None => match after_prefix(line, "-"@) {
                Some(rest) => "+"@ + rest,
                None => line,
            },
        },
    }
}

fn turn_line(line: &str) -> (r: String)
    ensures
        r@ == turned_line(line@),
{
    if let Some(rest) = strip_prefix(line, "@@ ") {
        if let Some((ranges, tail)) = split_once_text(rest.as_str(), " @@") {
            if let Some((a, b)) = split_once(ranges.as_str(), ' ') {
                let mut out = join4(
                    "@@ -",
                    trim_start_matches(b.as_str(), '+').as_str(),
                    " +",
                    trim_start_matches(a.as_str(), '-').as_str(),
                );
                out.append(" @@");
                out.append(tail.as_str());
                return out;
            }
        }
        return copy_text(line);
    }
    if let Some(rest) = strip_prefix(line, "+") {
        return join2("-", rest.as_str());
    }
    if let Some(rest) = strip_prefix(line, "-") {
        return join2("+", rest.as_str());
    }
    copy_text(line)
}

/// The names of a pair of file headers that starts at `i`.
pub open spec fn headers_at(v: Seq<Seq<char>>, i: int) -> Option<(Seq<char>, Seq<char>)> {
    if i + 1 >= v.len() {
        None
    } else {
        match (after_prefix(v[i], "--- "@), after_prefix(v[i + 1], "+++ "@)) {
            (Some(from), Some(to)) => Some((from, to)),
            _ => None,
        }
    }
}

/// The lines of a patch from `i` on turned round, with what came before. The two file headers swap
/// their names.
pub open spec fn turned_from(v: Seq<Seq<char>>, i: int, out: Seq<char>) -> Seq<char>
    decreases v.len() - i,
{
    if i < 0 || i >= v.len() {
        out
    } else {
        match headers_at(v, i) {
            Some((from, to)) => turned_from(
                v,
                i + 2,
                out + ("--- "@ + to + "\n+++ "@ + from + "\n"@),
            ),
            None => turned_from(v, i + 1, out + turned_line(v[i]) + "\n"@),
        }
    }
}

/// A patch turned round.
pub open spec fn turned(text: Seq<char>) -> Seq<char> {
    turned_from(line_list(text), 0, ""@)
}

/// Turns a patch round, so that applying it undoes what it did.
pub fn reverse_patch(text: &str) -> (r: String)
    ensures
        r@ == turned(text@),
{
    let v = lines(text);
    let ghost all = texts(v@);
    let mut out = copy_text("");
    let mut i: usize = 0;
    let ghost goal = turned(text@);
    while i < v.len()
        invariant
            i <= v@.len(),
            all == texts(v@),
            goal == turned(text@),
            goal == turned_from(all, i as int, out@),
        decreases v@.len() - i,
    {
        assert(all.len() == v@.len());
        assert(all[i as int] == v@[i as int]@);
        let mut paired = false;
        if v.len() - i > 1 {
            assert(all[i + 1] == v@[i + 1]@);
            if let Some(from) = strip_prefix(v[i].as_str(), "--- ") {
                if let Some(to) = strip_prefix(v[i + 1].as_str(), "+++ ") {
                    out.append(
                        join5("--- ", to.as_str(), "\n+++ ", from.as_str(), "\n").as_str(),
                    );
                    paired = true;
                }
            }
        }
        if paired {
            i += 2;
        } else {
            out.append(turn_line(v[i].as_str()).as_str());
            out.append("\n");
            i += 1;
        }
    }
    out
}

/// A line that is added or taken away, or that is neither and heads no hunk, is itself again once it
/// is turned round twice.
pub proof fn lemma_line_turned_twice(line: Seq<char>)
    requires
        after_prefix(line, "@@ "@) is None,
    ensures
        turned_line(turned_line(line)) == line,
{
    reveal_strlit("@@ ");
    reveal_strlit("+");
    reveal_strlit("-");
    if let Some(rest) = after_prefix(line, "+"@) {
        let once = "-"@ + rest;
        assert(line.subrange(0, 1)[0] == line[0]);
        assert(line =~= "+"@ + rest);
        lemma_first_differs(once, "@@ "@);
        lemma_first_differs(once, "+"@);
        assert(once.subrange(0, 1) =~= "-"@);
        assert(once.subrange(1, once.len() as int) =~= rest);
    } else if let Some(rest) = after_prefix(line, "-"@) {
        let once = "+"@ + rest;
        assert(line.subrange(0, 1)[0] == line[0]);
        assert(line =~= "-"@ + rest);
        lemma_first_differs(once, "@@ "@);
        assert(once.subrange(0, 1) =~= "+"@);
        assert(once.subrange(1, once.len() as int) =~= rest);
    }
}

proof fn lemma_first_differs(s: Seq<char>, pat: Seq<char>)
    requires
        s.len() > 0,
        pat.len() > 0,
        s[0] != pat[0],
    ensures
        !starts(s, pat),
{
    if starts(s, pat) {
        assert(s.subrange(0, pat.len() as int)[0] == s[0]);
    }
}

// ---------------------------------------------------------------------------
// Reporting on a patch
// ---------------------------------------------------------------------------

/// A file of a patch: its name, and how many lines come and go.
pub struct Touched {
    pub name: String,
    pub added: usize,
    pub removed: usize,
}

/// A file of a patch: its name, and how many lines come and go.
#[verifier::ext_equal]
pub struct Touch {
    pub name: Seq<char>,
    pub added: nat,
    pub removed: nat,
}

impl View for Touched {
    type V = Touch;

    open spec fn view(&self) -> Touch {
        Touch { name: self.name@, added: self.added as nat, removed: self.removed as nat }
    }
}

/// What a list of files holds.
pub open spec fn touches_of(v: Seq<Touched>) -> Seq<Touch> {
    v.map_values(|t: Touched| t@)
}

/// The name that a file header carries: what stands before a tab, without its first directory.
pub open spec fn header_name(rest: Seq<char>) -> Seq<char> {
    let name = pieces(rest, '\t')[0];
    match cut_once(name, '/') {
        Some((_, tail)) => tail,
        None => name,
    }
}

fn read_header_name(rest: &str) -> (r: String)
    ensures
        r@ == header_name(rest@),
{
    let v = split(rest, '\t');
    assert(texts(v@).len() == v@.len());
    assert(pieces(rest@, '\t').len() > 0) by {
        lemma_pieces_some(rest@, '\t', 0, 0);
    }
    assert(texts(v@)[0] == v@[0]@);
    match split_once(v[0].as_str(), '/') {
        Some((_, tail)) => tail,
        None => copy_text(v[0].as_str()),
    }
}

proof fn lemma_pieces_some(s: Seq<char>, sep: char, start: int, i: int)
    requires
        0 <= start <= i <= s.len(),
    ensures
        crate::text::split_at(s, sep, start, i).len() > 0,
    decreases s.len() - i,
{
    if i < s.len() {
        if s[i] != sep {
            lemma_pieces_some(s, sep, start, i + 1);
        }
    }
}

/// The files that are listed once one line is read, and whether the lines that follow are those of the
/// last of them. A file that goes is not listed, and its lines count for no other.
pub open spec fn touched_with(x: (Seq<Touch>, bool), line: Seq<char>) -> (Seq<Touch>, bool) {
    let (v, listed) = x;
    match after_prefix(line, "+++ "@) {
        Some(rest) => if header_name(rest) != "dev/null"@ {
            (v.push(Touch { name: header_name(rest), added: 0, removed: 0 }), true)
        } else {
            (v, false)
        },
        None => if v.len() == 0 || !listed || starts(line, "+++"@) || starts(line, "---"@) {
            x
        } else if starts(line, "+"@) {
            (v.drop_last().push(Touch { added: v.last().added + 1, ..v.last() }), true)
        } else if starts(line, "-"@) {
            (v.drop_last().push(Touch { removed: v.last().removed + 1, ..v.last() }), true)
        } else {
            x
        },
    }
}

/// The files that lines of a patch list, and whether further lines are those of the last of them.
pub open spec fn listed_in(lines: Seq<Seq<char>>) -> (Seq<Touch>, bool)
    decreases lines.len(),
{
    if lines.len() == 0 {
        (seq![], false)
    } else {
        touched_with(listed_in(lines.drop_last()), lines.last())
    }
}

/// The files that the lines of a patch touch.
pub open spec fn touched_in(lines: Seq<Seq<char>>) -> Seq<Touch> {
    listed_in(lines).0
}

/// The lines under the header of a file that goes change no count, up to the next header.
pub proof fn lemma_removed_file_counts_for_none(
    before: Seq<Seq<char>>,
    header: Seq<char>,
    body: Seq<Seq<char>>,
)
    requires
        after_prefix(header, "+++ "@) matches Some(rest) && header_name(rest) == "dev/null"@,
        forall|i: int| 0 <= i < body.len() ==> after_prefix(#[trigger] body[i], "+++ "@) is None,
    ensures
        touched_in(before.push(header) + body) == touched_in(before),
        !listed_in(before.push(header) + body).1,
    decreases body.len(),
{
    let all = before.push(header) + body;
    if body.len() == 0 {
        assert(all =~= before.push(header));
        assert(all.drop_last() =~= before);
    } else {
        assert forall|i: int| 0 <= i < body.drop_last().len() implies after_prefix(
            #[trigger] body.drop_last()[i],
            "+++ "@,
        ) is None by {
            assert(body.drop_last()[i] == body[i]);
        }
        lemma_removed_file_counts_for_none(before, header, body.drop_last());
        assert(all.drop_last() =~= before.push(header) + body.drop_last());
        assert(all.last() == body[body.len() - 1]);
    }
}

/// The name and the line counts that each file in a patch carries; a file that goes is not listed.
pub fn patch_counts(text: &str) -> (r: Vec<Touched>)
    ensures
        touches_of(r@) == touched_in(line_list(text@)),
        forall|k: int|
            0 <= k < r@.len() ==> (#[trigger] r@[k]).added + r@[k].removed <= line_list(text@).len(),
{
    let v = lines(text);
    let ghost all = texts(v@);
    let mut out: Vec<Touched> = Vec::new();
    let mut listed = false;
    let mut i: usize = 0;
    assert(touches_of(out@) =~= seq![]);
    while i < v.len()
        invariant
            i <= v@.len(),
            all == texts(v@),
            (touches_of(out@), listed) == listed_in(all.take(i as int)),
            forall|k: int|
                0 <= k < out@.len() ==> (#[trigger] out@[k]).added + out@[k].removed <= i,
        decreases v@.len() - i,
    {
        assert(all.take(i + 1).drop_last() =~= all.take(i as int));
        assert(all.take(i + 1).last() == v@[i as int]@);
        let line = v[i].as_str();
        let ghost before = out@;
        assert(touches_of(before).len() == before.len());
        if let Some(rest) = strip_prefix(line, "+++ ") {
            let name = read_header_name(rest.as_str());
            listed = !same(name.as_str(), "dev/null");
            if listed {
                let t = Touched { name, added: 0, removed: 0 };
                out.push(t);
                assert(touches_of(out@) =~= touches_of(before).push(t@));
            }
        } else if out.len() > 0 && listed && !starts_with(line, "+++") && !starts_with(line, "---") {
            if starts_with(line, "+") || starts_with(line, "-") {
                if let Some(t) = out.pop() {
                    assert(before[before.len() - 1] == t);
                    let more = if starts_with(line, "+") {
                        Touched { name: t.name, added: t.added + 1, removed: t.removed }
                    } else {
                        Touched { name: t.name, added: t.added, removed: t.removed + 1 }
                    };
                    out.push(more);
                    assert(touches_of(out@) =~= touches_of(before).drop_last().push(more@));
                }
            }
        }
        i += 1;
    }
    assert(all.take(i as int) =~= all);
    assert(all.len() == v@.len());
    out
}

/// The lines of counts.
pub open spec fn count_lines(v: Seq<Touch>) -> Seq<char>
    decreases v.len(),
{
    if v.len() == 0 {
        ""@
    } else {
        count_lines(v.drop_last()) + (decimal(v.last().added) + "\t"@ + decimal(v.last().removed)
            + "\t"@ + v.last().name + "\n"@)
    }
}

/// The most bytes that a name takes.
pub open spec fn longest_name(v: Seq<Touch>) -> nat
    decreases v.len(),
{
    if v.len() == 0 {
        0
    } else {
        let w = longest_name(v.drop_last());
        let n = encode_utf8(v.last().name).len();
        if n > w {
            n
        } else {
            w
        }
    }
}

/// The lines of a chart.
pub open spec fn chart_lines(v: Seq<Touch>, width: nat) -> Seq<char>
    decreases v.len(),
{
    if v.len() == 0 {
        ""@
    } else {
        let t = v.last();
        chart_lines(v.drop_last(), width) + (" "@ + pad_right(t.name, ' ', width as int) + " | "@
            + pad_left(decimal((t.added + t.removed) as nat), ' ', 4) + " "@ + repeated(
            '+',
            t.added as int,
        ) + repeated('-', t.removed as int) + "\n"@)
    }
}

/// All lines that come.
pub open spec fn total_added(v: Seq<Touch>) -> nat
    decreases v.len(),
{
    if v.len() == 0 {
        0
    } else {
        total_added(v.drop_last()) + v.last().added
    }
}

/// All lines that go.
pub open spec fn total_removed(v: Seq<Touch>) -> nat
    decreases v.len(),
{
    if v.len() == 0 {
        0
    } else {
        total_removed(v.drop_last()) + v.last().removed
    }
}

/// The report on a patch.
pub open spec fn patch_report(text: Seq<char>, report: Seq<char>) -> Seq<char> {
    let v = touched_in(line_list(text));
    if report == "--numstat"@ {
        count_lines(v)
    } else if report == "--summary"@ {
        ""@
    } else {
        chart_lines(v, longest_name(v)) + summary_text(v.len(), total_added(v), total_removed(v))
    }
}

fn write_counts(v: &[Touched]) -> (r: String)
    ensures
        r@ == count_lines(touches_of(v@)),
{
    let ghost all = touches_of(v@);
    let mut out = copy_text("");
    let mut i: usize = 0;
    while i < v.len()
        invariant
            i <= v@.len(),
            all == touches_of(v@),
            out@ == count_lines(all.take(i as int)),
        decreases v@.len() - i,
    {
        assert(all.take(i + 1).drop_last() =~= all.take(i as int));
        assert(all.take(i + 1).last() == v@[i as int]@);
        let mut line = join5(
            format_usize(v[i].added).as_str(),
            "\t",
            format_usize(v[i].removed).as_str(),
            "\t",
            v[i].name.as_str(),
        );
        line.append("\n");
        out.append(line.as_str());
        i += 1;
    }
    assert(all.take(i as int) =~= all);
    out
}

fn find_longest(v: &[Touched]) -> (r: usize)
    ensures
        r == longest_name(touches_of(v@)),
{
    let ghost all = touches_of(v@);
    let mut w: usize = 0;
    let mut i: usize = 0;
    while i < v.len()
        invariant
            i <= v@.len(),
            all == touches_of(v@),
            w == longest_name(all.take(i as int)),
        decreases v@.len() - i,
    {
        assert(all.take(i + 1).drop_last() =~= all.take(i as int));
        assert(all.take(i + 1).last() == v@[i as int]@);
        let n: usize = v[i].name.as_str().as_bytes().len();
        if n > w {
            w = n;
        }
        i += 1;
    }
    assert(all.take(i as int) =~= all);
    w
}

fn write_chart(v: &[Touched], bound: usize) -> (r: String)
    requires
        forall|k: int| 0 <= k < v@.len() ==> (#[trigger] v@[k]).added + v@[k].removed <= bound,
    ensures
        r@ == chart_lines(touches_of(v@), longest_name(touches_of(v@))) + summary_text(
            v@.len(),
            total_added(touches_of(v@)),
            total_removed(touches_of(v@)),
        ),
{
    let ghost all = touches_of(v@);
    let width = find_longest(v);
    let mut out = copy_text("");
    let mut added: u128 = 0;
    let mut removed: u128 = 0;
    let mut i: usize = 0;
    while i < v.len()
        invariant
            i <= v@.len(),
            v@.len() == v.len(),
            all == touches_of(v@),
            width == longest_name(all),
            forall|k: int|
                0 <= k < v@.len() ==> (#[trigger] v@[k]).added + v@[k].removed <= bound,
            out@ == chart_lines(all.take(i as int), width as nat),
            added == total_added(all.take(i as int)),
            removed == total_removed(all.take(i as int)),
            added <= i * usize::MAX,
            removed <= i * usize::MAX,
        decreases v@.len() - i,
    {
        assert(all.take(i + 1).drop_last() =~= all.take(i as int));
        assert(all.take(i + 1).last() == v@[i as int]@);
        assert((i + 1) * usize::MAX == i * usize::MAX + usize::MAX) by (nonlinear_arith);
        assert((i + 1) * usize::MAX <= u128::MAX) by (nonlinear_arith)
            requires
                i + 1 <= usize::MAX,
        ;
        let t = &v[i];
        let mut line = join5(
            " ",
            padded_right(t.name.as_str(), ' ', width).as_str(),
            " | ",
            padded_left(format_usize(t.added + t.removed).as_str(), ' ', 4).as_str(),
            " ",
        );
        line.append(repeat('+', t.added).as_str());
        line.append(repeat('-', t.removed).as_str());
        line.append("\n");
        out.append(line.as_str());
        added += t.added as u128;
        removed += t.removed as u128;
        i += 1;
    }
    assert(all.take(i as int) =~= all);
    out.append(summary_line(v.len(), added, removed).as_str());
    out
}

/// The report on a patch.
pub fn describe(text: &str, report: &str) -> (r: String)
    ensures
        r@ == patch_report(text@, report@),
{
    let v = patch_counts(text);
    assert(touches_of(v@).len() == v@.len());
    if same(report, "--numstat") {
        write_counts(v.as_slice())
    } else if same(report, "--summary") {
        copy_text("")
    } else {
        let all = lines(text);
        assert(texts(all@).len() == all@.len());
        write_chart(v.as_slice(), all.len())
    }
}

// ---------------------------------------------------------------------------
// Reading the arguments and the patch
// ---------------------------------------------------------------------------

/// What the arguments of `git apply` ask for.
pub struct ApplyAsk {
    pub stage: bool,
    pub cached: bool,
    pub reverse: bool,
    pub report: Option<String>,
    /// What is left for the patching.
    pub rest: Vec<String>,
}

/// What is asked of `git apply`.
#[verifier::ext_equal]
pub struct ApplyWish {
    pub stage: bool,
    pub cached: bool,
    pub reverse: bool,
    pub report: Option<Seq<char>>,
    pub rest: Seq<Seq<char>>,
}

impl View for ApplyAsk {
    type V = ApplyWish;

    open spec fn view(&self) -> ApplyWish {
        ApplyWish {
            stage: self.stage,
            cached: self.cached,
            reverse: self.reverse,
            report: opt_text(self.report),
            rest: texts(self.rest@),
        }
    }
}

/// What is asked for once an argument is read.
pub open spec fn apply_argument(x: ApplyWish, a: Seq<char>) -> ApplyWish {
    if a == "--index"@ {
        ApplyWish { stage: true, ..x }
    } else if a == "--cached"@ {
        ApplyWish { stage: true, cached: true, ..x }
    } else if a == "-R"@ || a == "--reverse"@ {
        ApplyWish { reverse: true, ..x }
    } else if a == "--stat"@ || a == "--numstat"@ || a == "--summary"@ {
        ApplyWish { report: Some(a), ..x }
    } else {
        ApplyWish { rest: x.rest.push(a), ..x }
    }
}

/// What the arguments ask for.
pub open spec fn apply_words(args: Seq<Seq<char>>) -> ApplyWish
    decreases args.len(),
{
    if args.len() == 0 {
        ApplyWish { stage: false, cached: false, reverse: false, report: None, rest: seq![] }
    } else {
        apply_argument(apply_words(args.drop_last()), args.last())
    }
}

/// Reads the arguments of `git apply`.
pub fn read_apply(args: &[String]) -> (r: ApplyAsk)
    ensures
        r@ == apply_words(texts(args@)),
{
    let ghost all = texts(args@);
    let mut x = ApplyAsk {
        stage: false,
        cached: false,
        reverse: false,
        report: None,
        rest: Vec::new(),
    };
    let mut i: usize = 0;
    assert(x@ =~= apply_words(all.take(0)));
    while i < args.len()
        invariant
            i <= args@.len(),
            all == texts(args@),
            x@ == apply_words(all.take(i as int)),
        decreases args@.len() - i,
    {
        broadcast use lemma_texts_push;

        assert(all.take(i + 1).drop_last() =~= all.take(i as int));
        assert(all.take(i + 1).last() == args@[i as int]@);
        let a = args[i].as_str();
        if same(a, "--index") {
            x.stage = true;
        } else if same(a, "--cached") {
            x.stage = true;
            x.cached = true;
        } else if same(a, "-R") || same(a, "--reverse") {
            x.reverse = true;
        } else if same(a, "--stat") || same(a, "--numstat") || same(a, "--summary") {
            x.report = Some(copy_text(a));
        } else {
            x.rest.push(copy_text(a));
        }
        i += 1;
    }
    assert(all.take(i as int) =~= all);
    x
}

/// The first operand.
pub open spec fn first_operand(v: Seq<Seq<char>>, i: int) -> Option<Seq<char>>
    decreases v.len() - i,
{
    if i < 0 || i >= v.len() {
        None
    } else if !starts(v[i], "-"@) {
        Some(v[i])
    } else {
        first_operand(v, i + 1)
    }
}

fn find_operand(v: &[String]) -> (r: Option<String>)
    ensures
        opt_text(r) == first_operand(texts(v@), 0),
{
    let ghost all = texts(v@);
    let mut i: usize = 0;
    while i < v.len()
        invariant
            i <= v@.len(),
            all == texts(v@),
            first_operand(all, 0) == first_operand(all, i as int),
        decreases v@.len() - i,
    {
        assert(all.len() == v@.len());
        assert(all[i as int] == v@[i as int]@);
        if !starts_with(v[i].as_str(), "-") {
            return Some(copy_text(v[i].as_str()));
        }
        i += 1;
    }
    assert(all.len() == v@.len());
    None
}

/// The text of the patch: of the first operand, or standard input; or the file that cannot be read.
pub open spec fn patch_source(m: Machine, s: Screen, rest: Seq<Seq<char>>) -> Result<Seq<char>, Seq<char>> {
    match first_operand(rest, 0) {
        None => Ok(loose_text(s.stdin)),
        Some(file) => match readable(m, resolved(m.cwd, file)) {
            Some(b) => if b.len() <= MAX_PATCH_BYTES {
                Ok(loose_text(b))
            } else {
                Err(file)
            },
            None => Err(file),
        },
    }
}

fn patch_text(system: &System, rest: &[String], io: &Io) -> (r: Result<String, String>)
    ensures
        match r {
            Ok(t) => patch_source(system@, io@, texts(rest@)) == Ok::<Seq<char>, Seq<char>>(t@),
            Err(f) => patch_source(system@, io@, texts(rest@)) == Err::<Seq<char>, Seq<char>>(f@),
        },
{
    match find_operand(rest) {
        None => Ok(decode_lossy(io.stdin.as_slice())),
        Some(file) => {
            let path = resolve_against(system.cwd().as_str(), file.as_str());
            match read_all(system, path.as_str()) {
                Some(b) => if b.len() <= MAX_PATCH_BYTES {
                    Ok(decode_lossy(b.as_slice()))
                } else {
                    Err(file)
                },
                None => Err(file),
            }
        },
    }
}

/// The complaint about a patch that cannot be read.
pub open spec fn unreadable_patch(s: Screen, file: Seq<char>) -> Screen {
    complained(s, "error: can't open patch '"@ + file + "': No such file or directory\n"@)
}

fn report_unreadable(file: &str, io: &mut Io)
    ensures
        final(io)@ == unreadable_patch(old(io)@, file@),
{
    io.print_err(
        join3("error: can't open patch '", file, "': No such file or directory\n").as_str(),
    );
}

/// How many directories are cut off the names of a patch: what the first option says that can be
/// read, or one.
pub open spec fn strip_named(v: Seq<Seq<char>>, i: int) -> nat
    decreases v.len() - i,
{
    if i < 0 || i >= v.len() {
        1
    } else {
        match after_prefix(v[i], "-p"@) {
            Some(n) => match read_unsigned(n, usize::MAX as nat) {
                Some(k) => k,
                None => strip_named(v, i + 1),
            },
            None => strip_named(v, i + 1),
        }
    }
}

/// How many directories are cut off the names of a patch.
pub fn strip_count(v: &[String]) -> (r: usize)
    ensures
        r == strip_named(texts(v@), 0),
{
    let ghost all = texts(v@);
    let mut i: usize = 0;
    while i < v.len()
        invariant
            i <= v@.len(),
            all == texts(v@),
            strip_named(all, 0) == strip_named(all, i as int),
        decreases v@.len() - i,
    {
        assert(all.len() == v@.len());
        assert(all[i as int] == v@[i as int]@);
        if let Some(n) = strip_prefix(v[i].as_str(), "-p") {
            if let Some(k) = parse_usize(n.as_str()) {
                return k;
            }
        }
        i += 1;
    }
    assert(all.len() == v@.len());
    1
}

/// The arguments that are options.
pub open spec fn options_in(v: Seq<Seq<char>>) -> Seq<Seq<char>>
    decreases v.len(),
{
    if v.len() == 0 {
        seq![]
    } else if starts(v.last(), "-"@) {
        options_in(v.drop_last()).push(v.last())
    } else {
        options_in(v.drop_last())
    }
}

fn keep_options(v: &[String]) -> (r: Vec<String>)
    ensures
        texts(r@) == options_in(texts(v@)),
{
    let ghost all = texts(v@);
    let mut out: Vec<String> = Vec::new();
    let mut i: usize = 0;
    assert(texts(out@) =~= seq![]);
    while i < v.len()
        invariant
            i <= v@.len(),
            all == texts(v@),
            texts(out@) == options_in(all.take(i as int)),
        decreases v@.len() - i,
    {
        broadcast use lemma_texts_push;

        assert(all.take(i + 1).drop_last() =~= all.take(i as int));
        assert(all.take(i + 1).last() == v@[i as int]@);
        if starts_with(v[i].as_str(), "-") {
            out.push(copy_text(v[i].as_str()));
        }
        i += 1;
    }
    assert(all.take(i as int) =~= all);
    out
}

// ---------------------------------------------------------------------------
// What is done before the patching
// ---------------------------------------------------------------------------

/// What comes next.
pub enum Errand {
    /// Nothing; the command ends with a status.
    Finished(i32),
    /// The files are patched.
    Files { rest: Vec<String> },
    /// The files are patched, and what changed is then staged.
    FilesAndIndex { root: String, rest: Vec<String>, before: Tree },
    /// What is staged is patched. `known` holds the content that can be patched.
    Index { root: String, text: String, strip: usize, index: Tree, known: Tree },
}

/// What comes next.
pub enum Plan {
    Finished(int),
    Files { rest: Seq<Seq<char>> },
    FilesAndIndex { root: Seq<char>, rest: Seq<Seq<char>>, before: Files },
    Index { root: Seq<char>, text: Seq<char>, strip: nat, index: Files, known: Files },
}

impl View for Errand {
    type V = Plan;

    open spec fn view(&self) -> Plan {
        match *self {
            Errand::Finished(e) => Plan::Finished(e as int),
            Errand::Files { rest } => Plan::Files { rest: texts(rest@) },
            Errand::FilesAndIndex { root, rest, before } => Plan::FilesAndIndex {
                root: root@,
                rest: texts(rest@),
                before: before@,
            },
            Errand::Index { root, text, strip, index, known } => Plan::Index {
                root: root@,
                text: text@,
                strip: strip as nat,
                index: index@,
                known: known@,
            },
        }
    }
}

/// What is done before what is staged is patched.
pub open spec fn index_prepared(m: Machine, s: Screen, root: Seq<char>, rest: Seq<Seq<char>>) -> (
    Machine,
    Screen,
    Plan,
) {
    match index_needed(m, s, root) {
        (t, Err(e)) => (m, t, Plan::Finished(e)),
        (t, Ok(index)) => match patch_source(m, t, rest) {
            Err(file) => (m, unreadable_patch(t, file), Plan::Finished(128)),
            Ok(text) => (
                m,
                t,
                Plan::Index {
                    root,
                    text,
                    strip: strip_named(rest, 0),
                    index,
                    known: overlaid(head_files(m, root), index),
                },
            ),
        },
    }
}

fn prepare_index(system: &System, root: String, rest: &[String], io: &mut Io) -> (r: Errand)
    ensures
        (system@, final(io)@, r@) == index_prepared(system@, old(io)@, root@, texts(rest@)),
{
    let index = match require_index(system, root.as_str(), io) {
        Ok(t) => t,
        Err(e) => return Errand::Finished(e),
    };
    let text = match patch_text(system, rest, io) {
        Ok(t) => t,
        Err(file) => {
            report_unreadable(file.as_str(), io);
            return Errand::Finished(128);
        },
    };
    let mut known = head_tree(system, root.as_str());
    overlay(&mut known, &index);
    Errand::Index { root, text, strip: strip_count(rest), index, known }
}

/// What is done before the patching, once the patch is turned round where that is asked for.
pub open spec fn patching_prepared(m: Machine, s: Screen, x: ApplyWish, rest: Seq<Seq<char>>) -> (
    Machine,
    Screen,
    Plan,
) {
    if !x.stage {
        (m, s, Plan::Files { rest })
    } else {
        match repo_root(m) {
            None => {
                let d = no_repo(m, s);
                (m, d.s, Plan::Finished(d.status))
            },
            Some(root) => if x.cached {
                index_prepared(m, s, root, rest)
            } else {
                match working_tree(m, root) {
                    (n, Err(e)) => (n, s, Plan::Finished(e)),
                    (n, Ok(before)) => (n, s, Plan::FilesAndIndex { root, rest, before }),
                }
            },
        }
    }
}

fn prepare_patching(system: &mut System, x: &ApplyAsk, rest: Vec<String>, io: &mut Io) -> (r: Errand)
    ensures
        (final(system)@, final(io)@, r@) == patching_prepared(
            old(system)@,
            old(io)@,
            x@,
            texts(rest@),
        ),
{
    if !x.stage {
        return Errand::Files { rest };
    }
    let root = match find_repo_root(system) {
        Some(root) => root,
        None => return Errand::Finished(repo_error(io)),
    };
    if x.cached {
        return prepare_index(system, root, rest.as_slice(), io);
    }
    match collect_working_tree(system, root.as_str()) {
        Ok(before) => Errand::FilesAndIndex { root, rest, before },
        Err(e) => Errand::Finished(e),
    }
}

/// The start of `git apply`: a report is printed and ends the command; a patch that is turned round
/// takes the place of standard input.
pub open spec fn apply_begun(m: Machine, s: Screen, args: Seq<Seq<char>>) -> (Machine, Screen, Plan) {
    let x = apply_words(args);
    match x.report {
        Some(report) => match patch_source(m, s, x.rest) {
            Err(file) => (m, unreadable_patch(s, file), Plan::Finished(128)),
            Ok(text) => (m, printed(s, patch_report(text, report)), Plan::Finished(0)),
        },
        None => if x.reverse {
            match patch_source(m, s, x.rest) {
                Err(file) => (m, unreadable_patch(s, file), Plan::Finished(128)),
                Ok(text) => patching_prepared(
                    m,
                    Screen { stdin: encode_utf8(turned(text)), ..s },
                    x,
                    options_in(x.rest),
                ),
            }
        } else {
            patching_prepared(m, s, x, x.rest)
        },
    }
}

/// Starts `git apply`, and says what comes next.
pub fn begin_apply(system: &mut System, args: &[String], io: &mut Io) -> (r: Errand)
    ensures
        (final(system)@, final(io)@, r@) == apply_begun(old(system)@, old(io)@, texts(args@)),
{
    let x = read_apply(args);
    if let Some(report) = &x.report {
        return match patch_text(system, x.rest.as_slice(), io) {
            Err(file) => {
                report_unreadable(file.as_str(), io);
                Errand::Finished(128)
            },
            Ok(text) => {
                io.print(describe(text.as_str(), report.as_str()).as_str());
                Errand::Finished(0)
            },
        };
    }
    if x.reverse {
        let text = match patch_text(system, x.rest.as_slice(), io) {
            Err(file) => {
                report_unreadable(file.as_str(), io);
                return Errand::Finished(128);
            },
            Ok(text) => text,
        };
        io.stdin = bytes_of(reverse_patch(text.as_str()).as_str());
        let rest = keep_options(x.rest.as_slice());
        return prepare_patching(system, &x, rest, io);
    }
    let rest = copy_texts(x.rest.as_slice());
    prepare_patching(system, &x, rest, io)
}

// ---------------------------------------------------------------------------
// What is done after the patching
// ---------------------------------------------------------------------------

/// An entry with new content. The mode that is recorded stays.
pub open spec fn with_content(t: Files, path: Seq<char>, hash: Seq<char>) -> Files {
    bind(
        t,
        path,
        match lookup(t, path) {
            Some(r) => Record { hash, ..r },
            None => Record { hash, executable: false, symlink: false },
        },
    )
}

/// New content leaves the mode that the index records, and every other entry, as it was. A path that
/// was not recorded becomes a plain file.
pub proof fn lemma_patch_keeps_mode(t: Files, path: Seq<char>, hash: Seq<char>, other: Seq<char>)
    ensures
        lookup(with_content(t, path, hash), path) is Some,
        lookup(with_content(t, path, hash), path)->0.hash == hash,
        lookup(t, path) is Some ==> mode_of(lookup(with_content(t, path, hash), path)->0) == mode_of(
            lookup(t, path)->0,
        ),
        lookup(t, path) is None ==> mode_of(lookup(with_content(t, path, hash), path)->0)
            == "100644"@,
        other != path ==> lookup(with_content(t, path, hash), other) == lookup(t, other),
{
    let r = match lookup(t, path) {
        Some(r) => Record { hash, ..r },
        None => Record { hash, executable: false, symlink: false },
    };
    lemma_lookup_bind(t, path, r, path);
    lemma_lookup_bind(t, path, r, other);
}

fn put_content(t: &mut Tree, path: &str, hash: String)
    ensures
        final(t)@ == with_content(old(t)@, path@, hash@),
{
    let (executable, symlink) = match t.get(path) {
        Some(e) => (e.executable, e.symlink),
        None => (false, false),
    };
    t.insert(copy_text(path), Entry { hash, executable, symlink });
}

/// Staging paths from `i` on as the working tree holds them.
pub open spec fn changes_recorded(
    m: Machine,
    s: Screen,
    root: Seq<char>,
    index: Files,
    after: Files,
    paths: Seq<Seq<char>>,
    i: int,
) -> Done
    decreases paths.len() - i,
{
    if i < 0 || i >= paths.len() {
        match index_stored(m, root, index) {
            (n, Ok(())) => Done { m: n, s, status: 0 },
            (n, Err(e)) => failed(n, s, write_message("the index"@, e)),
        }
    } else {
        let p = paths[i];
        let content = if lookup(after, p) is Some {
            work_content(m, root, p)
        } else {
            None
        };
        match content {
            Some(data) => match blob_stored(m, root, data) {
                (n, Ok(())) => changes_recorded(
                    n,
                    s,
                    root,
                    with_content(index, p, blob_id(data)),
                    after,
                    paths,
                    i + 1,
                ),
                (n, Err(e)) => Done {
                    m: n,
                    s: complained(s, "git apply: "@ + refusal_text(e) + "\n"@),
                    status: 1,
                },
            },
            None => changes_recorded(m, s, root, unbind(index, p), after, paths, i + 1),
        }
    }
}

/// Staging what a patch changed in the working tree.
pub open spec fn patched_staged(m: Machine, s: Screen, root: Seq<char>, before: Files) -> Done {
    match working_tree(m, root) {
        (n, Err(e)) => Done { m: n, s, status: e },
        (n, Ok(after)) => match index_needed(n, s, root) {
            (t, Err(e)) => Done { m: n, s: t, status: e },
            (t, Ok(index)) => changes_recorded(
                n,
                t,
                root,
                index,
                after,
                changed_paths(before, after, seq![]),
                0,
            ),
        },
    }
}

fn record_changes(
    system: &mut System,
    root: &str,
    index: Tree,
    after: &Tree,
    paths: &[String],
    io: &mut Io,
) -> (r: i32)
    ensures
        done(final(system)@, final(io)@, r) == changes_recorded(
            old(system)@,
            old(io)@,
            root@,
            index@,
            after@,
            texts(paths@),
            0,
        ),
{
    let ghost all = texts(paths@);
    let mut t = index;
    let ghost goal = changes_recorded(system@, io@, root@, index@, after@, all, 0);
    let mut i: usize = 0;
    while i < paths.len()
        invariant
            i <= paths@.len(),
            all == texts(paths@),
            goal == changes_recorded(old(system)@, old(io)@, root@, index@, after@, all, 0),
            goal == changes_recorded(system@, io@, root@, t@, after@, all, i as int),
        decreases paths@.len() - i,
    {
        assert(all.len() == paths@.len());
        assert(all[i as int] == paths@[i as int]@);
        let p = paths[i].as_str();
        let content = if after.contains_key(p) {
            read_work_file(system, root, p)
        } else {
            None
        };
        match content {
            Some(data) => match write_blob(system, root, data.as_slice()) {
                Ok(hash) => put_content(&mut t, p, hash),
                Err(e) => {
                    io.print_err(join3("git apply: ", e.message().as_str(), "\n").as_str());
                    return 1;
                },
            },
            None => t.remove(p),
        }
        i += 1;
    }
    assert(all.len() == paths@.len());
    match store_index(system, root, &t) {
        Ok(()) => 0,
        Err(e) => cannot_write(io, "the index", &e),
    }
}

/// Stages what a patch changed in the working tree.
pub fn stage_patched(system: &mut System, root: &str, before: &Tree, io: &mut Io) -> (r: i32)
    ensures
        done(final(system)@, final(io)@, r) == patched_staged(
            old(system)@,
            old(io)@,
            root@,
            before@,
        ),
{
    let after = match collect_working_tree(system, root) {
        Ok(t) => t,
        Err(e) => return e,
    };
    let none: Vec<String> = Vec::new();
    assert(texts(none@) =~= seq![]);
    let paths = list_changed(before, &after, none.as_slice());
    let index = match require_index(system, root, io) {
        Ok(t) => t,
        Err(e) => return e,
    };
    record_changes(system, root, index, &after, paths.as_slice(), io)
}

/// The content that a path has before what is staged is patched, or why there is none.
pub open spec fn staged_content(m: Machine, root: Seq<char>, known: Files, path: Seq<char>) -> Result<
    Seq<u8>,
    Seq<char>,
> {
    match relative(root, resolved(m.cwd, path)) {
        None => Err(path + ": outside the repository"@),
        Some(name) => match lookup(known, name) {
            None => Err(path + ": no such file"@),
            Some(r) => match blob_of(m, root, r.hash) {
                None => Err(path + ": object missing"@),
                Some(data) => Ok(data),
            },
        },
    }
}

/// The content that a path has before what is staged is patched.
pub fn read_staged(system: &System, root: &str, known: &Tree, path: &str) -> (r: Result<Vec<u8>, String>)
    ensures
        match r {
            Ok(data) => staged_content(system@, root@, known@, path@) == Ok::<Seq<u8>, Seq<char>>(
                data@,
            ),
            Err(e) => staged_content(system@, root@, known@, path@) == Err::<Seq<u8>, Seq<char>>(
                e@,
            ),
        },
{
    let absolute = resolve_against(system.cwd().as_str(), path);
    match relative_path(root, absolute.as_str()) {
        None => Err(join2(path, ": outside the repository")),
        Some(name) => match known.get(name.as_str()) {
            None => Err(join2(path, ": no such file")),
            Some(e) => match read_blob(system, root, e.hash.as_str()) {
                None => Err(join2(path, ": object missing")),
                Some(data) => Ok(data),
            },
        },
    }
}

/// A path that was patched, with its new content; without any where it is gone.
pub struct Patched {
    pub path: String,
    pub content: Option<Vec<u8>>,
}

/// What a list of patched paths holds.
pub open spec fn patched_list(v: Seq<Patched>) -> Seq<(Seq<char>, Option<Seq<u8>>)> {
    v.map_values(|p: Patched| (p.path@, opt_bytes(p.content)))
}

/// The index and the changes of files once the patched paths from `i` on are taken in, or the path
/// that lies outside.
pub open spec fn patched_from(
    m: Machine,
    root: Seq<char>,
    index: Files,
    changes: Seq<Act>,
    v: Seq<(Seq<char>, Option<Seq<u8>>)>,
    i: int,
) -> Result<(Files, Seq<Act>), Seq<char>>
    decreases v.len() - i,
{
    if i < 0 || i >= v.len() {
        Ok((index, changes))
    } else {
        match relative(root, resolved(m.cwd, v[i].0)) {
            None => Err(v[i].0),
            Some(name) => match v[i].1 {
                Some(data) => patched_from(
                    m,
                    root,
                    with_content(index, name, blob_id(data)),
                    changes.push(
                        Act::PutFile {
                            path: blob_file(root, blob_id(data)),
                            bytes: data,
                            mode: 0o644,
                        },
                    ),
                    v,
                    i + 1,
                ),
                None => patched_from(m, root, unbind(index, name), changes, v, i + 1),
            },
        }
    }
}

/// Storing the objects and the index in one step. Where that is refused, all stays as it was.
pub open spec fn patched_stored(
    m: Machine,
    s: Screen,
    root: Seq<char>,
    index: Files,
    v: Seq<(Seq<char>, Option<Seq<u8>>)>,
) -> Done {
    match patched_from(m, root, index, seq![], v, 0) {
        Err(path) => Done {
            m,
            s: complained(s, "error: "@ + path + ": outside the repository\n"@),
            status: 1,
        },
        Ok((t, changes)) => match settled(
            m,
            after_acts(
                m.files,
                changes.push(
                    Act::PutFile {
                        path: git_file(root, "index"@),
                        bytes: tree_bytes(t),
                        mode: 0o644,
                    },
                ),
                m.disk_limit as nat,
            ),
        ) {
            (n, Ok(())) => Done { m: n, s, status: 0 },
            (n, Err(e)) => Done {
                m: n,
                s: complained(s, "git apply: "@ + refusal_text(e) + "\n"@),
                status: 1,
            },
        },
    }
}

/// Whether every change is inside the `.git` directory.
spec fn inside_git(v: Seq<Act>, root: Seq<char>) -> bool {
    forall|i: int|
        0 <= i < v.len() ==> exists|name: Seq<char>| act_path(#[trigger] v[i]) == #[trigger] git_file(root, name)
}

proof fn lemma_patch_inside_git(
    m: Machine,
    root: Seq<char>,
    index: Files,
    changes: Seq<Act>,
    v: Seq<(Seq<char>, Option<Seq<u8>>)>,
    i: int,
)
    requires
        inside_git(changes, root),
    ensures
        patched_from(m, root, index, changes, v, i) is Ok ==> inside_git(
            patched_from(m, root, index, changes, v, i)->Ok_0.1,
            root,
        ),
    decreases v.len() - i,
{
    if 0 <= i < v.len() {
        if let Some(name) = relative(root, resolved(m.cwd, v[i].0)) {
            match v[i].1 {
                Some(data) => {
                    let a = Act::PutFile {
                        path: blob_file(root, blob_id(data)),
                        bytes: data,
                        mode: 0o644,
                    };
                    let more = changes.push(a);
                    assert forall|j: int| 0 <= j < more.len() implies exists|name: Seq<char>|
                        act_path(#[trigger] more[j]) == #[trigger] git_file(root, name) by {
                        if j < changes.len() {
                            assert(more[j] == changes[j]);
                        } else {
                            assert(act_path(more[j]) == git_file(root, "objects/"@ + blob_id(data)));
                        }
                    }
                    lemma_patch_inside_git(
                        m,
                        root,
                        with_content(index, name, blob_id(data)),
                        more,
                        v,
                        i + 1,
                    );
                },
                None => lemma_patch_inside_git(m, root, unbind(index, name), changes, v, i + 1),
            }
        }
    }
}

/// Patching the index never touches the working tree: what stands outside the `.git` directory stays.
pub proof fn lemma_cached_patch_spares_work(
    m: Machine,
    s: Screen,
    root: Seq<char>,
    index: Files,
    v: Seq<(Seq<char>, Option<Seq<u8>>)>,
    at: Seq<char>,
)
    requires
        ascending(m.files),
        lookup(m.files, at) is Some,
        forall|name: Seq<char>| at != #[trigger] git_file(root, name),
    ensures
        lookup(patched_stored(m, s, root, index, v).m.files, at) == lookup(m.files, at),
{
    lemma_patch_inside_git(m, root, index, seq![], v, 0);
    if let Ok((t, changes)) = patched_from(m, root, index, seq![], v, 0) {
        let all = changes.push(
            Act::PutFile { path: git_file(root, "index"@), bytes: tree_bytes(t), mode: 0o644 },
        );
        assert forall|j: int| 0 <= j < all.len() implies act_path(#[trigger] all[j]) != at by {
            if j < changes.len() {
                assert(all[j] == changes[j]);
                let name = choose|name: Seq<char>| act_path(changes[j]) == #[trigger] git_file(root, name);
                assert(at != git_file(root, name));
            } else {
                assert(at != git_file(root, "index"@));
            }
        }
        if after_acts(m.files, all, m.disk_limit as nat) is Ok {
            lemma_untouched_stays(m.files, all, m.disk_limit as nat, at);
        }
    }
}

/// Stores what patching the index gave.
pub fn store_patched(system: &mut System, root: &str, index: Tree, v: &[Patched], io: &mut Io) -> (r: i32)
    ensures
        done(final(system)@, final(io)@, r) == patched_stored(
            old(system)@,
            old(io)@,
            root@,
            index@,
            patched_list(v@),
        ),
{
    let ghost all = patched_list(v@);
    let cwd = system.cwd();
    let mut t = index;
    let mut changes: Vec<FileChange> = Vec::new();
    assert(acts(changes@) =~= seq![]);
    let ghost goal = patched_from(system@, root@, index@, seq![], all, 0);
    let mut i: usize = 0;
    while i < v.len()
        invariant
            i <= v@.len(),
            all == patched_list(v@),
            cwd@ == system@.cwd,
            system@ == old(system)@,
            io@ == old(io)@,
            goal == patched_from(old(system)@, root@, index@, seq![], all, 0),
            goal == patched_from(system@, root@, t@, acts(changes@), all, i as int),
        decreases v@.len() - i,
    {
        broadcast use lemma_acts_push;

        assert(all.len() == v@.len());
        assert(all[i as int] == (v@[i as int].path@, opt_bytes(v@[i as int].content)));
        let absolute = resolve_against(cwd.as_str(), v[i].path.as_str());
        match relative_path(root, absolute.as_str()) {
            None => {
                io.print_err(
                    join3(
                        "error: ",
                        v[i].path.as_str(),
                        ": outside the repository\n",
                    ).as_str(),
                );
                return 1;
            },
            Some(name) => match &v[i].content {
                Some(data) => {
                    let hash = blob_hash(data.as_slice());
                    changes.push(
                        FileChange::PutFile {
                            path: git_path(root, join2("objects/", hash.as_str()).as_str()),
                            bytes: crate::text::copy_bytes(data.as_slice()),
                            mode: 0o644,
                        },
                    );
                    put_content(&mut t, name.as_str(), hash);
                },
                None => t.remove(name.as_str()),
            },
        }
        i += 1;
    }
    assert(all.len() == v@.len());
    proof {
        broadcast use lemma_acts_push;

    }
    changes.push(
        FileChange::PutFile {
            path: git_path(root, "index"),
            bytes: serialize_tree(&t),
            mode: 0o644,
        },
    );
    match system.apply_file_batch(changes) {
        Ok(()) => 0,
        Err(e) => {
            io.print_err(join3("git apply: ", e.message().as_str(), "\n").as_str());
            1
        },
    }
}

/// The complaint about a patch that does not fit.
pub open spec fn patch_refused(m: Machine, s: Screen, error: Seq<char>) -> Done {
    let message = match after_prefix(error, "patch: "@) {
        Some(rest) => rest,
        None => error,
    };
    Done {
        m,
        s: complained(s, "error: "@ + message + "\nerror: patch does not apply\n"@),
        status: 1,
    }
}

/// Reports a patch that does not fit.
pub fn refuse_patch(system: &System, error: &str, io: &mut Io) -> (r: i32)
    ensures
        done(system@, final(io)@, r) == patch_refused(system@, old(io)@, error@),
{
    let message = match strip_prefix(error, "patch: ") {
        Some(rest) => rest,
        None => copy_text(error),
    };
    io.print_err(
        join3("error: ", message.as_str(), "\nerror: patch does not apply\n").as_str(),
    );
    1
}

/// Storing what patching the index gave changes every file that it has to, or none.
pub proof fn lemma_patched_all_or_nothing(
    m: Machine,
    s: Screen,
    root: Seq<char>,
    index: Files,
    v: Seq<(Seq<char>, Option<Seq<u8>>)>,
)
    ensures
        patched_stored(m, s, root, index, v).status != 0 ==> patched_stored(m, s, root, index, v).m
            == m,
{
}

} // verus!
