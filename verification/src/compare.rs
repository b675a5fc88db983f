//! Comparing two trees, in every format that `diff`, `show`, `log` and `commit` print.

use vstd::prelude::*;
use vstd::utf8::encode_utf8;

use crate::common::{
    commit_tree_or_empty, covered, done, index_or_empty, load_index_or_empty, names_a_path, path_named, pathspec,
    pathspec_of, selected, tree_or_empty,
};
use crate::console::{
    misused, no_repo, objected, printed, repo_error, usage, Complaint, Done, Io, Objection, Screen,
};
use crate::diff::{
    change_counts, counted, file_script, patch_text, render, side_binary, whitespace_errors, whitespace_text, Op,
    DEFAULT_CONTEXT,
};
use crate::history::{merge_base, shared_base, Names};
use crate::names::{
    add_keys, among, either, kept, keys_of_either, lemma_among, lemma_kept_passes, lemma_with_keys, same_entry,
    tree_among_names, with_keys,
};
use crate::numbers::{
    decimal, format_u128, format_usize, pad_left, pad_right, padded_left, padded_right, parse_usize, read_unsigned,
    repeat, repeated,
};
use crate::order::{ascending, keys_of, lemma_lookup_at, lemma_lookup_place, lookup, OrdMap};
use crate::repo::{blob_of, find_repo_root, head_files, head_tree, opt_bytes, read_blob, repo_root};
use crate::revisions::{resolve_revision, revision};
use crate::system::{Machine, System, STOPPED};
use crate::text::{
    after_prefix, copy_text, cut_once_text, join2, join3, join4, join5, lemma_texts_push, same, split_once_text,
    starts, starts_with, strip_prefix, texts,
};
use crate::trees::{mode_of, Files, Tree};
use crate::worktree::{
    collect_working_tree, lemma_work_ascending, read_work_file, tracked_files, work_content, working_tree,
};

verus! {

/// How a comparison is presented.
#[derive(Clone, Copy, Debug, PartialEq, Eq, Structural)]
pub enum Format {
    Patch,
    NameOnly,
    NameStatus,
    Stat,
    NumStat,
    ShortStat,
    Check,
    /// The files that were created or deleted, and the modes that changed.
    Summary,
}

/// Where the right-hand contents come from.
#[derive(Clone, Copy, Debug, PartialEq, Eq, Structural)]
pub enum RightSide {
    /// Blobs that the right-hand tree names.
    Stored,
    /// Files as they are in the working tree.
    WorkingTree,
}

/// Everything that shapes the output of one comparison.
pub struct Options {
    pub format: Format,
    pub context: usize,
    pub right: RightSide,
    /// The paths below the root that the comparison is restricted to.
    pub paths: Vec<String>,
    /// Only whether anything differs is reported.
    pub quiet: bool,
}

/// What the options hold.
#[verifier::ext_equal]
pub struct Shape {
    pub format: Format,
    pub context: int,
    pub right: RightSide,
    pub paths: Seq<Seq<char>>,
    pub quiet: bool,
}

impl View for Options {
    type V = Shape;

    open spec fn view(&self) -> Shape {
        Shape {
            format: self.format,
            context: self.context as int,
            right: self.right,
            paths: texts(self.paths@),
            quiet: self.quiet,
        }
    }
}

/// The options without anything asked for.
pub open spec fn plain_shape() -> Shape {
    Shape {
        format: Format::Patch,
        context: DEFAULT_CONTEXT as int,
        right: RightSide::Stored,
        paths: seq![],
        quiet: false,
    }
}

impl Default for Options {
    fn default() -> (r: Self)
        ensures
            r@ == plain_shape(),
    {
        let r = Options {
            format: Format::Patch,
            context: DEFAULT_CONTEXT,
            right: RightSide::Stored,
            paths: Vec::new(),
            quiet: false,
        };
        assert(texts(r.paths@) =~= seq![]);
        r
    }
}

/// The plain options in one format.
pub open spec fn shape_of(format: Format) -> Shape {
    Shape { format, ..plain_shape() }
}

/// The plain options in one format.
pub fn options_of(format: Format) -> (r: Options)
    ensures
        r@ == shape_of(format),
{
    let mut o = Options::default();
    o.format = format;
    o
}

// ---------------------------------------------------------------------------
// What differs
// ---------------------------------------------------------------------------

/// The content that a tree records for a path.
pub open spec fn stored_content(m: Machine, root: Seq<char>, t: Files, path: Seq<char>) -> Option<
    Seq<u8>,
> {
    match lookup(t, path) {
        Some(r) => blob_of(m, root, r.hash),
        None => None,
    }
}

/// The content of the right-hand side of a path.
pub open spec fn right_content(
    m: Machine,
    root: Seq<char>,
    t: Files,
    path: Seq<char>,
    right: RightSide,
) -> Option<Seq<u8>> {
    match right {
        RightSide::Stored => stored_content(m, root, t, path),
        RightSide::WorkingTree => if lookup(t, path) is Some {
            work_content(m, root, path)
        } else {
            None
        },
    }
}

/// The test for paths that differ and are asked for.
pub open spec fn changed_test(before: Files, after: Files, paths: Seq<Seq<char>>) -> spec_fn(
    Seq<char>,
) -> bool {
    |p: Seq<char>| covered(paths, p) && lookup(before, p) != lookup(after, p)
}

/// The paths that differ and are asked for.
pub open spec fn changed_paths(before: Files, after: Files, paths: Seq<Seq<char>>) -> Seq<Seq<char>> {
    kept(keys_of(either(before, after)), changed_test(before, after, paths))
}

/// The paths that differ and are asked for.
pub fn list_changed(before: &Tree, after: &Tree, paths: &[String]) -> (r: Vec<String>)
    ensures
        texts(r@) == changed_paths(before@, after@, texts(paths@)),
{
    let names = keys_of_either(before, after);
    let ghost test = changed_test(before@, after@, texts(paths@));
    let ghost all = keys_of(names@);
    let mut v: Vec<String> = Vec::new();
    let mut i: usize = 0;
    assert(texts(v@) =~= seq![]);
    while i < names.len()
        invariant
            i <= names@.len(),
            all == keys_of(names@),
            test == changed_test(before@, after@, texts(paths@)),
            texts(v@) == kept(all.take(i as int), test),
        decreases names@.len() - i,
    {
        broadcast use lemma_texts_push;

        assert(all.take(i + 1).drop_last() =~= all.take(i as int));
        let p = names.key_at(i);
        assert(all.take(i + 1).last() == p@);
        if selected(paths, p) && !same_entry(before.get(p), after.get(p)) {
            v.push(copy_text(p));
        }
        i += 1;
    }
    assert(all.take(i as int) =~= all);
    v
}

// ---------------------------------------------------------------------------
// Statistics
// ---------------------------------------------------------------------------

/// The lines that one file gained and lost.
pub struct FileStat {
    pub path: String,
    pub insertions: usize,
    pub deletions: usize,
    pub binary: bool,
}

/// What the statistics of one file hold.
#[verifier::ext_equal]
pub struct Tally {
    pub path: Seq<char>,
    pub insertions: nat,
    pub deletions: nat,
    pub binary: bool,
}

impl View for FileStat {
    type V = Tally;

    open spec fn view(&self) -> Tally {
        Tally {
            path: self.path@,
            insertions: self.insertions as nat,
            deletions: self.deletions as nat,
            binary: self.binary,
        }
    }
}

/// What a list of statistics holds.
pub open spec fn tallies(v: Seq<FileStat>) -> Seq<Tally> {
    v.map_values(|x: FileStat| x@)
}

/// The statistics of one file.
pub open spec fn tally_of(path: Seq<char>, before: Option<Seq<u8>>, after: Option<Seq<u8>>) -> Tally {
    if side_binary(before) || side_binary(after) {
        Tally { path, insertions: 0, deletions: 0, binary: true }
    } else {
        let edits = file_script(before, after);
        Tally {
            path,
            insertions: counted(edits, Op::Insert),
            deletions: counted(edits, Op::Delete),
            binary: false,
        }
    }
}

/// All the lines that were gained.
pub open spec fn all_insertions(v: Seq<Tally>) -> nat
    decreases v.len(),
{
    if v.len() == 0 {
        0
    } else {
        all_insertions(v.drop_last()) + v.last().insertions
    }
}

/// All the lines that were lost.
pub open spec fn all_deletions(v: Seq<Tally>) -> nat
    decreases v.len(),
{
    if v.len() == 0 {
        0
    } else {
        all_deletions(v.drop_last()) + v.last().deletions
    }
}

/// The plural ending for a count.
pub open spec fn plural_end(n: nat) -> Seq<char> {
    if n == 1 {
        ""@
    } else {
        "s"@
    }
}

/// The summary of a change: the files, the lines gained and the lines lost.
pub open spec fn summary_text(files: nat, insertions: nat, deletions: nat) -> Seq<char> {
    " "@ + decimal(files) + " file"@ + plural_end(files) + " changed"@ + (if insertions == 0 {
        ""@
    } else {
        ", "@ + decimal(insertions) + " insertion"@ + plural_end(insertions) + "(+)"@
    }) + (if deletions == 0 {
        ""@
    } else {
        ", "@ + decimal(deletions) + " deletion"@ + plural_end(deletions) + "(-)"@
    }) + "\n"@
}

fn plural(n: u128) -> (r: &'static str)
    ensures
        r@ == plural_end(n as nat),
{
    if n == 1 {
        ""
    } else {
        "s"
    }
}

/// The summary of a change.
pub fn summary_line(files: usize, insertions: u128, deletions: u128) -> (r: String)
    ensures
        r@ == summary_text(files as nat, insertions as nat, deletions as nat),
{
    let mut out = join5(
        " ",
        format_usize(files).as_str(),
        " file",
        plural(files as u128),
        " changed",
    );
    let gained = if insertions == 0 {
        copy_text("")
    } else {
        join5(
            ", ",
            format_u128(insertions).as_str(),
            " insertion",
            plural(insertions),
            "(+)",
        )
    };
    out.append(gained.as_str());
    let lost = if deletions == 0 {
        copy_text("")
    } else {
        join5(", ", format_u128(deletions).as_str(), " deletion", plural(deletions), "(-)")
    };
    out.append(lost.as_str());
    out.append("\n");
    out
}

/// How many marks stand for the lines of a file: at most forty, and at least one for each side that
/// changed. Where the insertions would take all forty and some line went, they leave one mark.
pub open spec fn graph_marks(insertions: nat, deletions: nat) -> (int, int) {
    let total = insertions + deletions;
    if total <= 40 {
        (insertions as int, deletions as int)
    } else {
        let scaled = (insertions * 40 + total - 1) / total as int;
        let plus = if scaled == 40 && deletions > 0 {
            39
        } else {
            scaled
        };
        (plus, 40 - plus)
    }
}

/// A graph has at most forty marks, at least one for each side that changed, and one for each line
/// where forty are enough.
pub proof fn lemma_graph_marks(insertions: nat, deletions: nat)
    ensures
        ({
            let (plus, minus) = graph_marks(insertions, deletions);
            &&& 0 <= plus && 0 <= minus && plus + minus <= 40
            &&& insertions > 0 ==> plus >= 1
            &&& deletions > 0 ==> minus >= 1
            &&& insertions == 0 ==> plus == 0
            &&& deletions == 0 ==> minus == 0
            &&& insertions + deletions <= 40 ==> (plus, minus) == (
                insertions as int,
                deletions as int,
            )
        }),
{
    let total = insertions + deletions;
    if total > 40 {
        let top = insertions * 40 + total - 1;
        let scaled = top / total as int;
        assert(0 <= scaled <= 40) by (nonlinear_arith)
            requires
                0 <= insertions <= total,
                total > 0,
                top == insertions * 40 + total - 1,
                scaled == top / total as int,
        ;
        assert(insertions > 0 ==> scaled >= 1) by (nonlinear_arith)
            requires
                total > 0,
                top == insertions * 40 + total - 1,
                scaled == top / total as int,
        ;
        assert(insertions == 0 ==> scaled == 0) by (nonlinear_arith)
            requires
                total > 0,
                top == insertions * 40 + total - 1,
                scaled == top / total as int,
        ;
        assert(insertions == total ==> scaled == 40) by (nonlinear_arith)
            requires
                total > 0,
                top == insertions * 40 + total - 1,
                scaled == top / total as int,
        ;
    }
}

/// How many marks stand for the lines of a file.
pub fn scale_graph(insertions: usize, deletions: usize) -> (r: (usize, usize))
    ensures
        (r.0 as int, r.1 as int) == graph_marks(insertions as nat, deletions as nat),
        r.0 + r.1 <= 40,
        insertions > 0 ==> r.0 >= 1,
        deletions > 0 ==> r.1 >= 1,
{
    proof {
        lemma_graph_marks(insertions as nat, deletions as nat);
    }
    let total: u128 = insertions as u128 + deletions as u128;
    if total <= 40 {
        return (insertions, deletions);
    }
    let top: u128 = insertions as u128 * 40 + total - 1;
    let scaled: u128 = top / total;
    assert(top / total <= 40) by (nonlinear_arith)
        requires
            insertions <= total,
            total > 0,
            top == insertions * 40 + total - 1,
    ;
    let plus: usize = if scaled == 40 && deletions > 0 {
        39
    } else {
        scaled as usize
    };
    (plus, 40 - plus)
}

/// The longest path, in bytes.
pub open spec fn longest_path(v: Seq<Tally>) -> nat
    decreases v.len(),
{
    if v.len() == 0 {
        0
    } else {
        let head = longest_path(v.drop_last());
        let n = encode_utf8(v.last().path).len();
        if n > head {
            n
        } else {
            head
        }
    }
}

/// The width of the largest count.
pub open spec fn widest_count(v: Seq<Tally>) -> nat
    decreases v.len(),
{
    if v.len() == 0 {
        0
    } else {
        let head = widest_count(v.drop_last());
        let n = decimal(v.last().insertions + v.last().deletions).len();
        if n > head {
            n
        } else {
            head
        }
    }
}

/// The line of one file with its graph.
pub open spec fn stat_line(x: Tally, names: nat, counts: nat) -> Seq<char> {
    if x.binary {
        " "@ + pad_right(x.path, ' ', names as int) + " | Bin\n"@
    } else {
        let (plus, minus) = graph_marks(x.insertions, x.deletions);
        " "@ + pad_right(x.path, ' ', names as int) + " | "@ + pad_left(
            decimal(x.insertions + x.deletions),
            ' ',
            counts as int,
        ) + " "@ + repeated('+', plus) + repeated('-', minus) + "\n"@
    }
}

/// The lines of all files with their graphs.
pub open spec fn stat_lines(v: Seq<Tally>, names: nat, counts: nat) -> Seq<char>
    decreases v.len(),
{
    if v.len() == 0 {
        ""@
    } else {
        stat_lines(v.drop_last(), names, counts) + stat_line(v.last(), names, counts)
    }
}

/// The line of one file in numbers.
pub open spec fn number_line(x: Tally) -> Seq<char> {
    if x.binary {
        "-\t-\t"@ + x.path + "\n"@
    } else {
        decimal(x.insertions) + "\t"@ + decimal(x.deletions) + "\t"@ + x.path + "\n"@
    }
}

/// The lines of all files in numbers.
pub open spec fn number_lines(v: Seq<Tally>) -> Seq<char>
    decreases v.len(),
{
    if v.len() == 0 {
        ""@
    } else {
        number_lines(v.drop_last()) + number_line(v.last())
    }
}

/// The statistics in a format.
pub open spec fn stats_text(v: Seq<Tally>, format: Format) -> Seq<char> {
    if format == Format::NumStat {
        number_lines(v)
    } else {
        (if format == Format::Stat {
            stat_lines(v, longest_path(v), widest_count(v))
        } else {
            ""@
        }) + summary_text(v.len(), all_insertions(v), all_deletions(v))
    }
}

fn stat_widths(v: &[FileStat]) -> (r: (usize, usize))
    ensures
        r.0 == longest_path(tallies(v@)),
        r.1 == widest_count(tallies(v@)),
{
    let ghost all = tallies(v@);
    let mut names: usize = 0;
    let mut counts: usize = 0;
    let mut i: usize = 0;
    while i < v.len()
        invariant
            i <= v.len(),
            all == tallies(v@),
            names == longest_path(all.take(i as int)),
            counts == widest_count(all.take(i as int)),
        decreases v.len() - i,
    {
        assert(all.take(i + 1).drop_last() =~= all.take(i as int));
        assert(all.take(i + 1).last() == v@[i as int]@);
        let a = v[i].path.as_str().as_bytes().len();
        if a > names {
            names = a;
        }
        let total = format_u128(v[i].insertions as u128 + v[i].deletions as u128);
        let b = crate::numbers::char_count(total.as_str());
        if b > counts {
            counts = b;
        }
        i += 1;
    }
    assert(all.take(i as int) =~= all);
    (names, counts)
}

fn stat_text(x: &FileStat, names: usize, counts: usize) -> (r: String)
    ensures
        r@ == stat_line(x@, names as nat, counts as nat),
{
    let name = padded_right(x.path.as_str(), ' ', names);
    if x.binary {
        return join3(" ", name.as_str(), " | Bin\n");
    }
    let (plus, minus) = scale_graph(x.insertions, x.deletions);
    let total = format_u128(x.insertions as u128 + x.deletions as u128);
    let mut out = join5(
        " ",
        name.as_str(),
        " | ",
        padded_left(total.as_str(), ' ', counts).as_str(),
        " ",
    );
    out.append(repeat('+', plus).as_str());
    out.append(repeat('-', minus).as_str());
    out.append("\n");
    out
}

fn number_text(x: &FileStat) -> (r: String)
    ensures
        r@ == number_line(x@),
{
    if x.binary {
        return join3("-\t-\t", x.path.as_str(), "\n");
    }
    let mut out = join4(
        format_usize(x.insertions).as_str(),
        "\t",
        format_usize(x.deletions).as_str(),
        "\t",
    );
    out.append(x.path.as_str());
    out.append("\n");
    out
}

fn sum_stats(v: &[FileStat]) -> (r: (u128, u128))
    ensures
        r.0 == all_insertions(tallies(v@)),
        r.1 == all_deletions(tallies(v@)),
{
    let ghost all = tallies(v@);
    let mut a: u128 = 0;
    let mut b: u128 = 0;
    let mut i: usize = 0;
    while i < v.len()
        invariant
            i <= v.len(),
            all == tallies(v@),
            a == all_insertions(all.take(i as int)),
            b == all_deletions(all.take(i as int)),
            a <= i * 0xffff_ffff_ffff_ffff,
            b <= i * 0xffff_ffff_ffff_ffff,
        decreases v.len() - i,
    {
        assert(all.take(i + 1).drop_last() =~= all.take(i as int));
        assert(all.take(i + 1).last() == v@[i as int]@);
        assert(i * 0xffff_ffff_ffff_ffff + 0xffff_ffff_ffff_ffff == (i + 1)
            * 0xffff_ffff_ffff_ffff);
        a = a + v[i].insertions as u128;
        b = b + v[i].deletions as u128;
        i += 1;
    }
    assert(all.take(i as int) =~= all);
    (a, b)
}

fn stat_list(v: &[FileStat]) -> (r: String)
    ensures
        r@ == stat_lines(
            tallies(v@),
            longest_path(tallies(v@)),
            widest_count(tallies(v@)),
        ),
{
    let (names, counts) = stat_widths(v);
    let ghost all = tallies(v@);
    let mut out = copy_text("");
    let mut i: usize = 0;
    while i < v.len()
        invariant
            i <= v.len(),
            all == tallies(v@),
            out@ == stat_lines(all.take(i as int), names as nat, counts as nat),
        decreases v.len() - i,
    {
        assert(all.take(i + 1).drop_last() =~= all.take(i as int));
        assert(all.take(i + 1).last() == v@[i as int]@);
        out.append(stat_text(&v[i], names, counts).as_str());
        i += 1;
    }
    assert(all.take(i as int) =~= all);
    out
}

fn number_list(v: &[FileStat]) -> (r: String)
    ensures
        r@ == number_lines(tallies(v@)),
{
    let ghost all = tallies(v@);
    let mut out = copy_text("");
    let mut i: usize = 0;
    while i < v.len()
        invariant
            i <= v.len(),
            all == tallies(v@),
            out@ == number_lines(all.take(i as int)),
        decreases v.len() - i,
    {
        assert(all.take(i + 1).drop_last() =~= all.take(i as int));
        assert(all.take(i + 1).last() == v@[i as int]@);
        out.append(number_text(&v[i]).as_str());
        i += 1;
    }
    assert(all.take(i as int) =~= all);
    out
}

/// The statistics in a format.
pub fn render_stats(v: &[FileStat], format: Format) -> (r: String)
    ensures
        r@ == stats_text(tallies(v@), format),
{
    if format == Format::NumStat {
        return number_list(v);
    }
    let (a, b) = sum_stats(v);
    let mut out = if format == Format::Stat {
        stat_list(v)
    } else {
        copy_text("")
    };
    assert(tallies(v@).len() == v@.len());
    out.append(summary_line(v.len(), a, b).as_str());
    out
}

// ---------------------------------------------------------------------------
// All formats
// ---------------------------------------------------------------------------

/// The line of a path with the kind of its change.
pub open spec fn status_line(before: Files, after: Files, path: Seq<char>) -> Seq<char> {
    (if lookup(before, path) is None && lookup(after, path) is Some {
        "A"@
    } else if lookup(before, path) is Some && lookup(after, path) is None {
        "D"@
    } else {
        "M"@
    }) + "\t"@ + path + "\n"@
}

/// The line about a file that was created or deleted, or whose mode changed.
pub open spec fn mode_line(before: Files, after: Files, path: Seq<char>) -> Seq<char> {
    match (lookup(before, path), lookup(after, path)) {
        (None, Some(r)) => " create mode "@ + mode_of(r) + " "@ + path + "\n"@,
        (Some(r), None) => " delete mode "@ + mode_of(r) + " "@ + path + "\n"@,
        (Some(a), Some(b)) => if a.executable != b.executable {
            " mode change "@ + mode_of(a) + " => "@ + mode_of(b) + " "@ + path + "\n"@
        } else {
            ""@
        },
        _ => ""@,
    }
}

/// What is printed for one path that differs.
pub open spec fn path_text(
    m: Machine,
    root: Seq<char>,
    before: Files,
    after: Files,
    o: Shape,
    path: Seq<char>,
) -> Seq<char> {
    let a = stored_content(m, root, before, path);
    let b = right_content(m, root, after, path, o.right);
    match o.format {
        Format::NameOnly => path + "\n"@,
        Format::NameStatus => status_line(before, after, path),
        Format::Summary => mode_line(before, after, path),
        Format::Check => whitespace_text(path, file_script(a, b)),
        Format::Patch => patch_text(path, a, b, o.context, true),
        _ => ""@,
    }
}

/// What is printed for the paths that differ.
pub open spec fn paths_text(
    m: Machine,
    root: Seq<char>,
    before: Files,
    after: Files,
    o: Shape,
    paths: Seq<Seq<char>>,
) -> Seq<char>
    decreases paths.len(),
{
    if paths.len() == 0 {
        ""@
    } else {
        paths_text(m, root, before, after, o, paths.drop_last()) + path_text(
            m,
            root,
            before,
            after,
            o,
            paths.last(),
        )
    }
}

/// The statistics of the paths that differ.
pub open spec fn tallied(
    m: Machine,
    root: Seq<char>,
    before: Files,
    after: Files,
    right: RightSide,
    paths: Seq<Seq<char>>,
) -> Seq<Tally> {
    paths.map_values(
        |p: Seq<char>|
            tally_of(
                p,
                stored_content(m, root, before, p),
                right_content(m, root, after, p, right),
            ),
    )
}

/// Whether a format is one of the statistics.
pub open spec fn counts_lines(format: Format) -> bool {
    format == Format::Stat || format == Format::NumStat || format == Format::ShortStat
}

/// The comparison of two trees: what is printed, and whether white space was complained about.
pub open spec fn comparison(m: Machine, root: Seq<char>, before: Files, after: Files, o: Shape) -> (
    Seq<char>,
    bool,
) {
    let v = changed_paths(before, after, o.paths);
    if v.len() == 0 {
        (""@, false)
    } else if counts_lines(o.format) {
        (stats_text(tallied(m, root, before, after, o.right, v), o.format), false)
    } else {
        let text = paths_text(m, root, before, after, o, v);
        (text, o.format == Format::Check && text.len() > 0)
    }
}

/// The stored content of a path.
pub fn read_stored(system: &System, root: &str, t: &Tree, path: &str) -> (r: Option<Vec<u8>>)
    ensures
        opt_bytes(r) == stored_content(system@, root@, t@, path@),
{
    match t.get(path) {
        Some(e) => read_blob(system, root, e.hash.as_str()),
        None => None,
    }
}

fn read_right(system: &System, root: &str, t: &Tree, path: &str, right: RightSide) -> (r: Option<Vec<u8>>)
    ensures
        opt_bytes(r) == right_content(system@, root@, t@, path@, right),
{
    match right {
        RightSide::Stored => read_stored(system, root, t, path),
        RightSide::WorkingTree => if t.contains_key(path) {
            read_work_file(system, root, path)
        } else {
            None
        },
    }
}

/// The bytes of an optional file.
pub fn as_bytes(o: &Option<Vec<u8>>) -> (r: Option<&[u8]>)
    ensures
        crate::diff::content(r) == opt_bytes(*o),
{
    match o {
        Some(v) => Some(v.as_slice()),
        None => None,
    }
}

fn is_binary_content(o: &Option<Vec<u8>>) -> (r: bool)
    ensures
        r == side_binary(opt_bytes(*o)),
{
    match o {
        Some(v) => crate::diff::is_binary(v.as_slice()),
        None => false,
    }
}

fn stat_of(system: &System, root: &str, before: &Tree, after: &Tree, right: RightSide, path: &str) -> (r:
    FileStat)
    ensures
        r@ == tally_of(
            path@,
            stored_content(system@, root@, before@, path@),
            right_content(system@, root@, after@, path@, right),
        ),
{
    let a = read_stored(system, root, before, path);
    let b = read_right(system, root, after, path, right);
    if is_binary_content(&a) || is_binary_content(&b) {
        return FileStat { path: copy_text(path), insertions: 0, deletions: 0, binary: true };
    }
    let (insertions, deletions) = change_counts(as_bytes(&a), as_bytes(&b));
    FileStat { path: copy_text(path), insertions, deletions, binary: false }
}

/// The statistics of the paths that differ.
pub fn tally(
    system: &System,
    root: &str,
    before: &Tree,
    after: &Tree,
    right: RightSide,
    paths: &[String],
) -> (r: Vec<FileStat>)
    ensures
        tallies(r@) == tallied(system@, root@, before@, after@, right, texts(paths@)),
{
    let mut out: Vec<FileStat> = Vec::new();
    let mut i: usize = 0;
    while i < paths.len()
        invariant
            i <= paths.len(),
            out@.len() == i,
            forall|k: int|
                0 <= k < i ==> (#[trigger] out@[k])@ == tally_of(
                    paths@[k]@,
                    stored_content(system@, root@, before@, paths@[k]@),
                    right_content(system@, root@, after@, paths@[k]@, right),
                ),
        decreases paths.len() - i,
    {
        out.push(stat_of(system, root, before, after, right, paths[i].as_str()));
        i += 1;
    }
    assert(tallies(out@) =~= tallied(system@, root@, before@, after@, right, texts(paths@)));
    out
}

fn status_text_of(before: &Tree, after: &Tree, path: &str) -> (r: String)
    ensures
        r@ == status_line(before@, after@, path@),
{
    let a = before.contains_key(path);
    let b = after.contains_key(path);
    join4(
        if !a && b {
            "A"
        } else if a && !b {
            "D"
        } else {
            "M"
        },
        "\t",
        path,
        "\n",
    )
}

fn mode_text(before: &Tree, after: &Tree, path: &str) -> (r: String)
    ensures
        r@ == mode_line(before@, after@, path@),
{
    match (before.get(path), after.get(path)) {
        (None, Some(e)) => join5(" create mode ", e.mode(), " ", path, "\n"),
        (Some(e), None) => join5(" delete mode ", e.mode(), " ", path, "\n"),
        (Some(a), Some(b)) => if a.executable != b.executable {
            let mut out = join5(" mode change ", a.mode(), " => ", b.mode(), " ");
            out.append(path);
            out.append("\n");
            out
        } else {
            copy_text("")
        },
        _ => copy_text(""),
    }
}

fn render_path(system: &System, root: &str, before: &Tree, after: &Tree, o: &Options, path: &str) -> (r:
    String)
    ensures
        r@ == path_text(system@, root@, before@, after@, o@, path@),
{
    match o.format {
        Format::NameOnly => join2(path, "\n"),
        Format::NameStatus => status_text_of(before, after, path),
        Format::Summary => mode_text(before, after, path),
        Format::Check => {
            let a = read_stored(system, root, before, path);
            let b = read_right(system, root, after, path, o.right);
            whitespace_errors(path, as_bytes(&a), as_bytes(&b))
        },
        Format::Patch => {
            let a = read_stored(system, root, before, path);
            let b = read_right(system, root, after, path, o.right);
            render(path, as_bytes(&a), as_bytes(&b), o.context, true)
        },
        _ => copy_text(""),
    }
}

/// Renders the comparison of two trees; also whether white space was complained about.
pub fn compare_trees(system: &System, root: &str, before: &Tree, after: &Tree, o: &Options) -> (r: (
    String,
    bool,
))
    ensures
        (r.0@, r.1) == comparison(system@, root@, before@, after@, o@),
{
    let v = list_changed(before, after, o.paths.as_slice());
    let ghost all = texts(v@);
    assert(all.len() == v@.len());
    if v.len() == 0 {
        return (copy_text(""), false);
    }
    if o.format == Format::Stat || o.format == Format::NumStat || o.format == Format::ShortStat {
        let stats = tally(system, root, before, after, o.right, v.as_slice());
        return (render_stats(stats.as_slice(), o.format), false);
    }
    let mut out = copy_text("");
    let mut i: usize = 0;
    while i < v.len()
        invariant
            i <= v.len(),
            all == texts(v@),
            out@ == paths_text(system@, root@, before@, after@, o@, all.take(i as int)),
        decreases v.len() - i,
    {
        assert(all.take(i + 1).drop_last() =~= all.take(i as int));
        assert(all.take(i + 1).last() == v@[i as int]@);
        out.append(render_path(system, root, before, after, o, v[i].as_str()).as_str());
        i += 1;
    }
    assert(all.take(i as int) =~= all);
    let complained_of = o.format == Format::Check && !out.as_str().is_empty();
    (out, complained_of)
}

/// Prints the comparison of two trees; whether white space was complained about.
pub fn emit(system: &System, root: &str, before: &Tree, after: &Tree, o: &Options, io: &mut Io) -> (r: bool)
    ensures
        final(io)@ == printed(
            old(io)@,
            comparison(system@, root@, before@, after@, o@).0,
        ),
        r == comparison(system@, root@, before@, after@, o@).1,
{
    let (text, complained_of) = compare_trees(system, root, before, after, o);
    io.print(text.as_str());
    complained_of
}

/// Two equal trees compare as nothing.
pub proof fn lemma_same_trees(m: Machine, root: Seq<char>, t: Files, o: Shape)
    ensures
        comparison(m, root, t, t, o) == (""@, false),
{
    lemma_none_changed(keys_of(either(t, t)), t, o.paths);
}

proof fn lemma_none_changed(v: Seq<Seq<char>>, t: Files, paths: Seq<Seq<char>>)
    ensures
        kept(v, changed_test(t, t, paths)).len() == 0,
    decreases v.len(),
{
    if v.len() > 0 {
        lemma_none_changed(v.drop_last(), t, paths);
    }
}

// ---------------------------------------------------------------------------
// git diff
// ---------------------------------------------------------------------------

/// The options once one that `diff`, `log` and `show` share is read; nothing for any other.
pub open spec fn shared_option(o: Shape, argument: Seq<char>) -> Option<Shape> {
    if argument == "--name-only"@ {
        Some(Shape { format: Format::NameOnly, ..o })
    } else if argument == "--name-status"@ {
        Some(Shape { format: Format::NameStatus, ..o })
    } else if argument == "--stat"@ {
        Some(Shape { format: Format::Stat, ..o })
    } else if argument == "--numstat"@ {
        Some(Shape { format: Format::NumStat, ..o })
    } else if argument == "--shortstat"@ {
        Some(Shape { format: Format::ShortStat, ..o })
    } else if argument == "--check"@ {
        Some(Shape { format: Format::Check, ..o })
    } else if argument == "-p"@ || argument == "-u"@ || argument == "--patch"@ {
        Some(Shape { format: Format::Patch, ..o })
    } else if argument == "--no-color"@ || argument == "--color=never"@ || argument
        == "--no-ext-diff"@ || argument == "--no-renames"@ {
        Some(o)
    } else {
        let digits = match after_prefix(argument, "-U"@) {
            Some(d) => Some(d),
            None => after_prefix(argument, "--unified="@),
        };
        match digits {
            Some(d) => match read_unsigned(d, usize::MAX as nat) {
                Some(n) => Some(Shape { context: n as int, ..o }),
                None => None,
            },
            None => None,
        }
    }
}

/// Reads an option that `diff`, `log` and `show` share; whether it is one.
pub fn apply_shared_option(o: &mut Options, argument: &str) -> (r: bool)
    ensures
        match shared_option(old(o)@, argument@) {
            Some(x) => r && final(o)@ == x,
            None => !r && final(o)@ == old(o)@,
        },
{
    if same(argument, "--name-only") {
        o.format = Format::NameOnly;
    } else if same(argument, "--name-status") {
        o.format = Format::NameStatus;
    } else if same(argument, "--stat") {
        o.format = Format::Stat;
    } else if same(argument, "--numstat") {
        o.format = Format::NumStat;
    } else if same(argument, "--shortstat") {
        o.format = Format::ShortStat;
    } else if same(argument, "--check") {
        o.format = Format::Check;
    } else if same(argument, "-p") || same(argument, "-u") || same(argument, "--patch") {
        o.format = Format::Patch;
    } else if same(argument, "--no-color") || same(argument, "--color=never") || same(
        argument,
        "--no-ext-diff",
    ) || same(argument, "--no-renames") {
    } else {
        let digits = match strip_prefix(argument, "-U") {
            Some(d) => Some(d),
            None => strip_prefix(argument, "--unified="),
        };
        match digits {
            Some(d) => match parse_usize(d.as_str()) {
                Some(n) => o.context = n,
                None => return false,
            },
            None => return false,
        }
    }
    true
}

/// The two ends of a range, and whether it starts from their common ancestor.
pub open spec fn range_ends(s: Seq<char>) -> Option<(Seq<char>, Seq<char>, bool)> {
    match cut_once_text(s, "..."@) {
        Some((a, b)) => Some((a, b, true)),
        None => match cut_once_text(s, ".."@) {
            Some((a, b)) => Some((a, b, false)),
            None => None,
        },
    }
}

/// What the ends of a range say.
pub open spec fn ends_of(r: Option<(String, String, bool)>) -> Option<(Seq<char>, Seq<char>, bool)> {
    match r {
        Some((a, b, c)) => Some((a@, b@, c)),
        None => None,
    }
}

/// The two ends of a range, and whether it starts from their common ancestor.
pub fn split_range(s: &str) -> (r: Option<(String, String, bool)>)
    ensures
        ends_of(r) == range_ends(s@),
{
    if let Some((a, b)) = split_once_text(s, "...") {
        return Some((a, b, true));
    }
    match split_once_text(s, "..") {
        Some((a, b)) => Some((a, b, false)),
        None => None,
    }
}

/// What the arguments of `git diff` ask for.
pub struct DiffAsk {
    pub options: Options,
    pub cached: bool,
    pub exit_code: bool,
    pub operands_only: bool,
    pub revisions: Vec<String>,
}

/// What is asked of `git diff`.
#[verifier::ext_equal]
pub struct DiffWish {
    pub options: Shape,
    pub cached: bool,
    pub exit_code: bool,
    pub operands_only: bool,
    pub revisions: Seq<Seq<char>>,
}

impl View for DiffAsk {
    type V = DiffWish;

    open spec fn view(&self) -> DiffWish {
        DiffWish {
            options: self.options@,
            cached: self.cached,
            exit_code: self.exit_code,
            operands_only: self.operands_only,
            revisions: texts(self.revisions@),
        }
    }
}

/// What is asked for once a path is read.
pub open spec fn diff_path(m: Machine, root: Seq<char>, x: DiffWish, value: Seq<char>) -> DiffWish {
    DiffWish {
        options: Shape {
            paths: x.options.paths.push(pathspec_of(m.cwd, root, value)),
            ..x.options
        },
        ..x
    }
}

/// Whether both ends of a range are known.
pub open spec fn range_known(m: Machine, root: Seq<char>, value: Seq<char>) -> bool {
    match range_ends(value) {
        Some((a, b, _)) => revision(m, root, a) is Some && revision(m, root, b) is Some,
        None => false,
    }
}

/// What is asked for once an argument is read.
pub open spec fn diff_argument(m: Machine, root: Seq<char>, x: DiffWish, value: Seq<char>) -> Result<
    DiffWish,
    Objection,
> {
    if x.operands_only {
        Ok(diff_path(m, root, x, value))
    } else if value == "--"@ {
        Ok(DiffWish { operands_only: true, ..x })
    } else if value == "--cached"@ || value == "--staged"@ {
        Ok(DiffWish { cached: true, ..x })
    } else if value == "--quiet"@ {
        Ok(DiffWish { options: Shape { quiet: true, ..x.options }, ..x })
    } else if value == "--exit-code"@ {
        Ok(DiffWish { exit_code: true, ..x })
    } else if starts(value, "-"@) {
        match shared_option(x.options, value) {
            Some(o) => Ok(DiffWish { options: o, ..x }),
            None => Err(Objection::Usage("unsupported diff option: "@ + value)),
        }
    } else if (x.revisions.len() < 2 && revision(m, root, value) is Some) || (x.revisions.len()
        == 0 && range_known(m, root, value)) {
        Ok(DiffWish { revisions: x.revisions.push(value), ..x })
    } else if !path_named(m, root, value) {
        Err(Objection::Ambiguous(value))
    } else {
        Ok(diff_path(m, root, x, value))
    }
}

/// What the arguments ask for.
pub open spec fn diff_words(m: Machine, root: Seq<char>, args: Seq<Seq<char>>) -> Result<
    DiffWish,
    Objection,
>
    decreases args.len(),
{
    if args.len() == 0 {
        Ok(
            DiffWish {
                options: plain_shape(),
                cached: false,
                exit_code: false,
                operands_only: false,
                revisions: seq![],
            },
        )
    } else {
        match diff_words(m, root, args.drop_last()) {
            Ok(x) => diff_argument(m, root, x, args.last()),
            Err(e) => Err(e),
        }
    }
}

/// The tree of a revision, or the empty tree.
pub open spec fn revision_tree(m: Machine, root: Seq<char>, rev: Seq<char>) -> Files {
    match revision(m, root, rev) {
        Some(id) => tree_or_empty(m, root, id),
        None => seq![],
    }
}

/// The paths of the working tree that the index knows; nothing where it cannot be read.
pub open spec fn known_work(m: Machine, root: Seq<char>, index: Files) -> (Machine, Option<Files>) {
    match working_tree(m, root) {
        (n, Ok(work)) => (n, Some(among(work, with_keys(seq![], index)))),
        (n, Err(_)) => (n, None),
    }
}

/// Untracked files are never compared: the working tree that is compared holds what the index knows
/// and nothing else, so a path that the index does not know is not among the changes.
pub proof fn lemma_untracked_not_compared(
    m: Machine,
    root: Seq<char>,
    index: Files,
    paths: Seq<Seq<char>>,
    path: Seq<char>,
)
    requires
        ascending(index),
        known_work(m, root, index).1 is Some,
    ensures
        lookup(index, path) is None ==> lookup(known_work(m, root, index).1->0, path) is None
            && !changed_paths(index, known_work(m, root, index).1->0, paths).contains(path),
        lookup(index, path) is Some ==> lookup(known_work(m, root, index).1->0, path) == lookup(
            working_tree(m, root).1->Ok_0,
            path,
        ),
{
    let work = working_tree(m, root).1->Ok_0;
    let known = known_work(m, root, index).1->0;
    let none: Names = seq![];
    lemma_work_ascending(m, tracked_files(m, root));
    lemma_with_keys(none, index, path);
    lemma_among(work, with_keys(none, index), path);
    if lookup(index, path) is Some {
        let i = lemma_lookup_place(index, path);
        assert(index[i].0 == path);
    } else {
        if exists|i: int| 0 <= i < index.len() && (#[trigger] index[i]).0 == path {
            let i = choose|i: int| 0 <= i < index.len() && (#[trigger] index[i]).0 == path;
            lemma_lookup_at(index, i);
        }
        let test = changed_test(index, known, paths);
        if changed_paths(index, known, paths).contains(path) {
            lemma_kept_passes(keys_of(either(index, known)), test, path);
        }
    }
}

/// The end of a comparison: what is printed and the status.
pub open spec fn diff_ended(
    m: Machine,
    s: Screen,
    root: Seq<char>,
    before: Files,
    after: Files,
    o: Shape,
    exit_code: bool,
) -> Done {
    let differs = changed_paths(before, after, o.paths).len() > 0;
    let (text, bad) = comparison(m, root, before, after, o);
    if o.quiet {
        Done {
            m,
            s,
            status: if differs {
                1
            } else {
                0
            },
        }
    } else {
        Done {
            m,
            s: printed(s, text),
            status: if bad {
                2
            } else if exit_code && differs {
                1
            } else {
                0
            },
        }
    }
}

/// Comparing a tree with the working tree.
pub open spec fn diff_with_work(
    m: Machine,
    s: Screen,
    root: Seq<char>,
    before: Files,
    index: Files,
    x: DiffWish,
) -> Done {
    match known_work(m, root, index) {
        (n, None) => Done { m: n, s, status: STOPPED as int },
        (n, Some(work)) => diff_ended(
            n,
            s,
            root,
            before,
            work,
            Shape { right: RightSide::WorkingTree, ..x.options },
            x.exit_code,
        ),
    }
}

/// Comparing the two ends of a range.
pub open spec fn diff_range(
    m: Machine,
    s: Screen,
    root: Seq<char>,
    x: DiffWish,
    range: (Seq<char>, Seq<char>, bool),
) -> Done {
    match (revision(m, root, range.0), revision(m, root, range.1)) {
        (Some(a), Some(b)) => if range.2 {
            match shared_base(m, root, a, b) {
                None => misused(m, s, "the revisions have no common ancestor"@),
                Some(c) => diff_ended(
                    m,
                    s,
                    root,
                    tree_or_empty(m, root, c),
                    tree_or_empty(m, root, b),
                    x.options,
                    x.exit_code,
                ),
            }
        } else {
            diff_ended(
                m,
                s,
                root,
                tree_or_empty(m, root, a),
                tree_or_empty(m, root, b),
                x.options,
                x.exit_code,
            )
        },
        _ => misused(m, s, "unknown revision range"@),
    }
}

/// The comparison that was asked for.
pub open spec fn diff_within(m: Machine, s: Screen, root: Seq<char>, x: DiffWish) -> Done {
    let index = index_or_empty(m, root);
    let v = x.revisions;
    let range = if v.len() > 0 {
        range_ends(v[0])
    } else {
        None
    };
    match range {
        Some(r) => diff_range(m, s, root, x, r),
        None => if v.len() >= 2 {
            diff_ended(
                m,
                s,
                root,
                revision_tree(m, root, v[0]),
                revision_tree(m, root, v[1]),
                x.options,
                x.exit_code,
            )
        } else if x.cached {
            diff_ended(
                m,
                s,
                root,
                if v.len() == 1 {
                    revision_tree(m, root, v[0])
                } else {
                    head_files(m, root)
                },
                index,
                x.options,
                x.exit_code,
            )
        } else {
            diff_with_work(
                m,
                s,
                root,
                if v.len() == 1 {
                    revision_tree(m, root, v[0])
                } else {
                    index
                },
                index,
                x,
            )
        },
    }
}

/// `git diff`.
pub open spec fn diff_done(m: Machine, s: Screen, args: Seq<Seq<char>>) -> Done {
    match repo_root(m) {
        None => no_repo(m, s),
        Some(root) => match diff_words(m, root, args) {
            Err(o) => objected(m, s, o),
            Ok(x) => diff_within(m, s, root, x),
        },
    }
}

/// What the words that were read say.
pub open spec fn diff_result(r: Result<DiffAsk, Complaint>) -> Result<DiffWish, Objection> {
    match r {
        Ok(x) => Ok(x@),
        Err(e) => Err(e@),
    }
}

fn add_diff_path(system: &System, root: &str, x: DiffAsk, value: &str) -> (r: DiffAsk)
    ensures
        r@ == diff_path(system@, root@, x@, value@),
{
    broadcast use lemma_texts_push;

    let mut x = x;
    x.options.paths.push(pathspec(system.cwd().as_str(), root, value));
    x
}

fn is_range_known(system: &System, root: &str, value: &str) -> (r: bool)
    ensures
        r == range_known(system@, root@, value@),
{
    match split_range(value) {
        Some((a, b, _)) => resolve_revision(system, root, a.as_str()).is_some() && resolve_revision(
            system,
            root,
            b.as_str(),
        ).is_some(),
        None => false,
    }
}

fn read_diff_argument(system: &System, root: &str, x: DiffAsk, value: &str) -> (r: Result<
    DiffAsk,
    Complaint,
>)
    ensures
        diff_result(r) == diff_argument(system@, root@, x@, value@),
{
    broadcast use lemma_texts_push;

    let mut x = x;
    assert(texts(x.revisions@).len() == x.revisions@.len());
    if x.operands_only {
        return Ok(add_diff_path(system, root, x, value));
    }
    if same(value, "--") {
        x.operands_only = true;
    } else if same(value, "--cached") || same(value, "--staged") {
        x.cached = true;
    } else if same(value, "--quiet") {
        x.options.quiet = true;
    } else if same(value, "--exit-code") {
        x.exit_code = true;
    } else if starts_with(value, "-") {
        if !apply_shared_option(&mut x.options, value) {
            return Err(Complaint::Usage(join2("unsupported diff option: ", value)));
        }
    } else if (x.revisions.len() < 2 && resolve_revision(system, root, value).is_some()) || (
    x.revisions.len() == 0 && is_range_known(system, root, value)) {
        x.revisions.push(copy_text(value));
    } else if !names_a_path(system, root, value) {
        return Err(Complaint::Ambiguous(copy_text(value)));
    } else {
        return Ok(add_diff_path(system, root, x, value));
    }
    Ok(x)
}

proof fn lemma_diff_refused(m: Machine, root: Seq<char>, args: Seq<Seq<char>>, n: int)
    requires
        0 <= n <= args.len(),
        diff_words(m, root, args.take(n)) is Err,
    ensures
        diff_words(m, root, args) == diff_words(m, root, args.take(n)),
    decreases args.len() - n,
{
    if n < args.len() {
        assert(args.take(n + 1).drop_last() =~= args.take(n));
        lemma_diff_refused(m, root, args, n + 1);
    } else {
        assert(args.take(n) =~= args);
    }
}

fn read_diff(system: &System, root: &str, args: &[String]) -> (r: Result<DiffAsk, Complaint>)
    ensures
        diff_result(r) == diff_words(system@, root@, texts(args@)),
{
    let ghost all = texts(args@);
    let mut x = DiffAsk {
        options: Options::default(),
        cached: false,
        exit_code: false,
        operands_only: false,
        revisions: Vec::new(),
    };
    assert(texts(x.revisions@) =~= seq![]);
    assert(all.take(0) =~= seq![]);
    let mut i: usize = 0;
    while i < args.len()
        invariant
            i <= args.len(),
            all == texts(args@),
            diff_words(system@, root@, all.take(i as int)) == Ok::<DiffWish, Objection>(x@),
        decreases args.len() - i,
    {
        assert(all.take(i + 1).drop_last() =~= all.take(i as int));
        assert(all.take(i + 1).last() == args@[i as int]@);
        x = match read_diff_argument(system, root, x, args[i].as_str()) {
            Ok(y) => y,
            Err(e) => {
                proof {
                    lemma_diff_refused(system@, root@, all, i + 1);
                }
                return Err(e);
            },
        };
        i += 1;
    }
    assert(all.take(i as int) =~= all);
    Ok(x)
}

/// The tree of a revision, or the empty tree.
pub fn tree_of_revision(system: &System, root: &str, rev: &str) -> (r: Tree)
    ensures
        r@ == revision_tree(system@, root@, rev@),
{
    match resolve_revision(system, root, rev) {
        Some(id) => commit_tree_or_empty(system, root, id.as_str()),
        None => {
            let t: Tree = OrdMap::new();
            assert(t@ =~= seq![]);
            t
        },
    }
}

/// The paths of the working tree that the index knows. Untracked files are never compared.
pub fn tracked_working_tree(system: &mut System, root: &str, index: &Tree) -> (r: Option<Tree>)
    ensures
        ({
            let (n, o) = known_work(old(system)@, root@, index@);
            &&& final(system)@ == n
            &&& crate::repo::opt_tree(r) == o
        }),
{
    let work = match collect_working_tree(system, root) {
        Ok(t) => t,
        Err(_) => return None,
    };
    let mut names: OrdMap<()> = OrdMap::new();
    assert(names@ =~= seq![]);
    add_keys(&mut names, index);
    Some(tree_among_names(&work, &names))
}

fn end_diff(
    system: &System,
    root: &str,
    before: &Tree,
    after: &Tree,
    o: &Options,
    exit_code: bool,
    io: &mut Io,
) -> (r: i32)
    ensures
        done(system@, final(io)@, r) == diff_ended(
            system@,
            old(io)@,
            root@,
            before@,
            after@,
            o@,
            exit_code,
        ),
{
    let v = list_changed(before, after, o.paths.as_slice());
    assert(texts(v@).len() == v@.len());
    let differs = v.len() > 0;
    if o.quiet {
        return if differs {
            1
        } else {
            0
        };
    }
    if emit(system, root, before, after, o, io) {
        2
    } else if exit_code && differs {
        1
    } else {
        0
    }
}

fn compare_with_work(system: &mut System, root: &str, before: &Tree, index: &Tree, x: DiffAsk, io: &mut Io) -> (r:
    i32)
    ensures
        done(final(system)@, final(io)@, r) == diff_with_work(
            old(system)@,
            old(io)@,
            root@,
            before@,
            index@,
            x@,
        ),
{
    let work = match tracked_working_tree(system, root, index) {
        Some(t) => t,
        None => return STOPPED,
    };
    let mut o = x.options;
    o.right = RightSide::WorkingTree;
    end_diff(system, root, before, &work, &o, x.exit_code, io)
}

fn compare_range(system: &System, root: &str, x: &DiffAsk, range: (String, String, bool), io: &mut Io) -> (r:
    i32)
    ensures
        done(system@, final(io)@, r) == diff_range(
            system@,
            old(io)@,
            root@,
            x@,
            (range.0@, range.1@, range.2),
        ),
{
    let (left, right, from_base) = range;
    let a = match resolve_revision(system, root, left.as_str()) {
        Some(id) => id,
        None => return usage(io, "unknown revision range"),
    };
    let b = match resolve_revision(system, root, right.as_str()) {
        Some(id) => id,
        None => return usage(io, "unknown revision range"),
    };
    let start = if from_base {
        match merge_base(system, root, a.as_str(), b.as_str()) {
            Some(c) => c,
            None => return usage(io, "the revisions have no common ancestor"),
        }
    } else {
        a
    };
    let before = commit_tree_or_empty(system, root, start.as_str());
    let after = commit_tree_or_empty(system, root, b.as_str());
    end_diff(system, root, &before, &after, &x.options, x.exit_code, io)
}

fn compare_asked(system: &mut System, root: &str, x: DiffAsk, io: &mut Io) -> (r: i32)
    ensures
        done(final(system)@, final(io)@, r) == diff_within(
            old(system)@,
            old(io)@,
            root@,
            x@,
        ),
{
    let index = load_index_or_empty(system, root);
    let ghost v = texts(x.revisions@);
    assert(v.len() == x.revisions@.len());
    let n: usize = x.revisions.len();
    if n > 0 {
        assert(v[0] == x.revisions@[0]@);
        if let Some(range) = split_range(x.revisions[0].as_str()) {
            return compare_range(system, root, &x, range, io);
        }
    }
    if n >= 2 {
        assert(v[1] == x.revisions@[1]@);
        let before = tree_of_revision(system, root, x.revisions[0].as_str());
        let after = tree_of_revision(system, root, x.revisions[1].as_str());
        return end_diff(system, root, &before, &after, &x.options, x.exit_code, io);
    }
    if x.cached {
        let before = if n == 1 {
            tree_of_revision(system, root, x.revisions[0].as_str())
        } else {
            head_tree(system, root)
        };
        return end_diff(system, root, &before, &index, &x.options, x.exit_code, io);
    }
    if n == 1 {
        let before = tree_of_revision(system, root, x.revisions[0].as_str());
        return compare_with_work(system, root, &before, &index, x, io);
    }
    compare_with_work(system, root, &index, &index, x, io)
}

/// `git diff`: shows changes between commits, the index and the working tree.
pub fn git_diff(system: &mut System, args: &[String], io: &mut Io) -> (r: i32)
    ensures
        done(final(system)@, final(io)@, r) == diff_done(old(system)@, old(io)@, texts(args@)),
{
    let root = match find_repo_root(system) {
        Some(root) => root,
        None => return repo_error(io),
    };
    let x = match read_diff(system, root.as_str(), args) {
        Ok(x) => x,
        Err(c) => {
            assert(objected(system@, io@, c@).m == system@);
            return c.report(io);
        },
    };
    compare_asked(system, root.as_str(), x, io)
}

} // verus!
