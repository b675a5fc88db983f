//! `git log` and `git show`: choosing commits and printing them.

use vstd::prelude::*;

use crate::bytes::{decode_lossy, loose_text};
use crate::common::{
    commit_tree_or_empty, done, names_a_path, path_named, pathspec, pathspec_of, tree_or_empty,
};
use crate::compare::{changed_paths, compare_trees, comparison, list_changed, options_of, shape_of, Format, Shape};
use crate::console::{
    ambiguous, ambiguous_argument, failed, fatal, no_repo, objected, printed, repo_error, Complaint, Done, Io,
    Objection, Screen,
};
use crate::dates::{clock_seconds, now_seconds, opt_int, parse_date, read_date};
use crate::diff::{edit_script, lines_of, script, script_of, split_lines, Op};
use crate::flags::{in_range, next_word, Arg, Flags, Pass, Word};
use crate::graph::{advanced, draw_on_rail, drawn, Rail};
use crate::history::{listed, Listed};
use crate::numbers::{parse_usize, read_unsigned};
use crate::objects::{short, short_id};
use crate::order::lookup;
use crate::patterns::{found_in, is_found, pattern_error, regex_refusal};
use crate::pretty::{
    decoration_of, decorations, header_text, is_template, is_terminated, parse_pretty, render_commit_header,
    set_apart, spaced, usable_layout, Entry, Layout, Pretty,
};
use crate::progress::opt_nat;
use crate::records::{Commit, Note};
use crate::repo::{
    blob_of, branch_of, current_branch, find_repo_root, head_commit, head_id, opt_bytes, read_blob, repo_root,
};
use crate::revset::{
    choice_of, count_named, count_option, history_for, history_of, list_starting_points, select_revision,
    starting_points, MAX_LISTED,
};
use crate::syntax::{flags_for, pass_for, value_for, Want};
use crate::system::{Machine, System};
use crate::text::{
    chars_of, copy_text, copy_texts, find_at, find_from, join, join2, join3, joined, lemma_find_from,
    lemma_texts_push, opt_text, same, texts,
};
use crate::trees::{Files, Tree};

verus! {

/// What the arguments of `git log` ask for.
pub struct LogAsk {
    pub pretty: Pretty,
    pub limit: usize,
    pub skip: usize,
    pub revisions: Vec<String>,
    pub all_references: bool,
    pub first_parent: bool,
    pub reverse: bool,
    pub decorate: bool,
    pub no_merges: bool,
    pub merges_only: bool,
    pub abbreviate: bool,
    pub author: Option<String>,
    pub message: Option<String>,
    pub since: Option<i64>,
    pub until: Option<i64>,
    pub ignore_case: bool,
    /// Text whose number of occurrences has to change.
    pub pickaxe: Option<String>,
    /// A pattern that a line which comes or goes has to match.
    pub changed_lines: Option<String>,
    pub patch: Option<Format>,
    pub stat: Option<Format>,
    pub graph: bool,
    pub paths: Vec<String>,
}

/// What is asked of `git log`.
#[verifier::ext_equal]
pub struct LogWish {
    pub pretty: Layout,
    pub limit: int,
    pub skip: int,
    pub revisions: Seq<Seq<char>>,
    pub all_references: bool,
    pub first_parent: bool,
    pub reverse: bool,
    pub decorate: bool,
    pub no_merges: bool,
    pub merges_only: bool,
    pub abbreviate: bool,
    pub author: Option<Seq<char>>,
    pub message: Option<Seq<char>>,
    pub since: Option<int>,
    pub until: Option<int>,
    pub ignore_case: bool,
    pub pickaxe: Option<Seq<char>>,
    pub changed_lines: Option<Seq<char>>,
    pub patch: Option<Format>,
    pub stat: Option<Format>,
    pub graph: bool,
    pub paths: Seq<Seq<char>>,
}

impl View for LogAsk {
    type V = LogWish;

    open spec fn view(&self) -> LogWish {
        LogWish {
            pretty: self.pretty@,
            limit: self.limit as int,
            skip: self.skip as int,
            revisions: texts(self.revisions@),
            all_references: self.all_references,
            first_parent: self.first_parent,
            reverse: self.reverse,
            decorate: self.decorate,
            no_merges: self.no_merges,
            merges_only: self.merges_only,
            abbreviate: self.abbreviate,
            author: opt_text(self.author),
            message: opt_text(self.message),
            since: opt_int(self.since),
            until: opt_int(self.until),
            ignore_case: self.ignore_case,
            pickaxe: opt_text(self.pickaxe),
            changed_lines: opt_text(self.changed_lines),
            patch: self.patch,
            stat: self.stat,
            graph: self.graph,
            paths: texts(self.paths@),
        }
    }
}

/// What `git log` is asked for without any argument.
pub open spec fn plain_log() -> LogWish {
    LogWish {
        pretty: Layout::Medium,
        limit: MAX_LISTED as int,
        skip: 0,
        revisions: seq![],
        all_references: false,
        first_parent: false,
        reverse: false,
        decorate: false,
        no_merges: false,
        merges_only: false,
        abbreviate: false,
        author: None,
        message: None,
        since: None,
        until: None,
        ignore_case: false,
        pickaxe: None,
        changed_lines: None,
        patch: None,
        stat: None,
        graph: false,
        paths: seq![],
    }
}

impl LogAsk {
    /// Nothing asked for.
    pub fn new() -> (r: Self)
        ensures
            r@ == plain_log(),
    {
        let r = LogAsk {
            pretty: Pretty::Medium,
            limit: MAX_LISTED,
            skip: 0,
            revisions: Vec::new(),
            all_references: false,
            first_parent: false,
            reverse: false,
            decorate: false,
            no_merges: false,
            merges_only: false,
            abbreviate: false,
            author: None,
            message: None,
            since: None,
            until: None,
            ignore_case: false,
            pickaxe: None,
            changed_lines: None,
            patch: None,
            stat: None,
            graph: false,
            paths: Vec::new(),
        };
        assert(r@ =~= plain_log());
        r
    }
}

/// Whether an option of `git log` takes a value.
pub open spec fn log_wants(name: Seq<char>) -> Want {
    if name == "-n"@ || name == "--max-count"@ || name == "--skip"@ || name == "--since"@ || name
        == "--after"@ || name == "--until"@ || name == "--before"@ || name == "--grep"@ || name
        == "--author"@ || name == "-S"@ || name == "-G"@ {
        Want::Needed
    } else {
        Want::Attached
    }
}

fn log_wanted(name: &str) -> (r: Want)
    ensures
        r == log_wants(name@),
{
    if same(name, "-n") || same(name, "--max-count") || same(name, "--skip") || same(
        name,
        "--since",
    ) || same(name, "--after") || same(name, "--until") || same(name, "--before") || same(
        name,
        "--grep",
    ) || same(name, "--author") || same(name, "-S") || same(name, "-G") {
        Want::Needed
    } else {
        Want::Attached
    }
}

/// The count that a value spells.
pub open spec fn count_in(value: Option<Seq<char>>) -> Option<nat> {
    match value {
        Some(v) => read_unsigned(v, usize::MAX as nat),
        None => None,
    }
}

fn read_count(value: &Option<String>) -> (r: Option<usize>)
    ensures
        opt_nat(r) == count_in(opt_text(*value)),
{
    match value {
        Some(v) => parse_usize(v.as_str()),
        None => None,
    }
}

/// What is asked for once an option with a value is read.
pub open spec fn log_valued(x: LogWish, name: Seq<char>, value: Option<Seq<char>>, now: int) -> Result<
    LogWish,
    Objection,
> {
    if name == "-n"@ || name == "--max-count"@ {
        match count_in(value) {
            Some(n) => Ok(LogWish { limit: n as int, ..x }),
            None => Err(Objection::Usage("log count must be a non-negative integer"@)),
        }
    } else if name == "--skip"@ {
        match count_in(value) {
            Some(n) => Ok(LogWish { skip: n as int, ..x }),
            None => Err(Objection::Usage("--skip requires a non-negative integer"@)),
        }
    } else if name == "--since"@ || name == "--after"@ || name == "--until"@ || name
        == "--before"@ {
        match value {
            None => Err(Objection::Usage(name + " requires a date"@)),
            Some(v) => match read_date(v, now) {
                None => Err(Objection::Usage("unsupported date: "@ + v)),
                Some(t) => if name == "--since"@ || name == "--after"@ {
                    Ok(LogWish { since: Some(t), ..x })
                } else {
                    Ok(LogWish { until: Some(t), ..x })
                },
            },
        }
    } else if name == "--grep"@ {
        match value {
            None => Err(Objection::Usage("--grep requires a pattern"@)),
            Some(v) => Ok(LogWish { message: Some(v), ..x }),
        }
    } else if name == "--author"@ {
        match value {
            None => Err(Objection::Usage("--author requires a pattern"@)),
            Some(v) => Ok(LogWish { author: Some(v), ..x }),
        }
    } else {
        match value {
            None => Err(Objection::Usage(name + " requires a string"@)),
            Some(v) => if name == "-S"@ {
                Ok(LogWish { pickaxe: Some(v), ..x })
            } else {
                Ok(LogWish { changed_lines: Some(v), ..x })
            },
        }
    }
}

/// What is asked for once an option without a value is read.
pub open spec fn log_plain(x: LogWish, name: Seq<char>, attached: Option<Seq<char>>) -> Result<
    LogWish,
    Objection,
> {
    if name == "--oneline"@ {
        Ok(LogWish { pretty: Layout::AbbreviatedOneLine, ..x })
    } else if name == "--reverse"@ {
        Ok(LogWish { reverse: true, ..x })
    } else if name == "--decorate"@ {
        Ok(LogWish { decorate: attached != Some("no"@), ..x })
    } else if name == "--no-decorate"@ || name == "--no-color"@ || name == "--color"@ {
        Ok(x)
    } else if name == "--no-merges"@ {
        Ok(LogWish { no_merges: true, ..x })
    } else if name == "--merges"@ {
        Ok(LogWish { merges_only: true, ..x })
    } else if name == "--abbrev-commit"@ {
        Ok(LogWish { abbreviate: true, ..x })
    } else if name == "--first-parent"@ {
        Ok(LogWish { first_parent: true, ..x })
    } else if name == "--all"@ {
        Ok(LogWish { all_references: true, ..x })
    } else if name == "-i"@ || name == "--regexp-ignore-case"@ {
        Ok(LogWish { ignore_case: true, ..x })
    } else if name == "--graph"@ {
        Ok(LogWish { graph: true, ..x })
    } else if name == "--no-graph"@ {
        Ok(LogWish { graph: false, ..x })
    } else if name == "--stat"@ {
        Ok(LogWish { stat: Some(Format::Stat), ..x })
    } else if name == "--name-only"@ {
        Ok(LogWish { stat: Some(Format::NameOnly), ..x })
    } else if name == "--name-status"@ {
        Ok(LogWish { stat: Some(Format::NameStatus), ..x })
    } else if name == "-p"@ || name == "-u"@ || name == "--patch"@ {
        Ok(LogWish { patch: Some(Format::Patch), ..x })
    } else if name == "--pretty"@ || name == "--format"@ {
        match usable_layout(
            match attached {
                Some(v) => v,
                None => ""@,
            },
            name == "--format"@,
        ) {
            Some(pretty) => Ok(LogWish { pretty, ..x }),
            None => Err(Objection::Fatal("unsupported log format: "@ + name)),
        }
    } else {
        match count_named(name) {
            Some(n) => Ok(LogWish { limit: n as int, ..x }),
            None => Err(Objection::Usage("unsupported log option: "@ + name)),
        }
    }
}

/// What is asked for once an operand is read. After `--` it is a path; before, it is a revision
/// where it names one, and has to name a path otherwise.
pub open spec fn log_operand(
    m: Machine,
    root: Seq<char>,
    x: LogWish,
    separated: bool,
    value: Seq<char>,
) -> Result<LogWish, Objection> {
    if !separated && choice_of(m, root, value) is Some {
        Ok(LogWish { revisions: x.revisions.push(value), ..x })
    } else if !separated && !path_named(m, root, value) {
        Err(Objection::Ambiguous(value))
    } else {
        Ok(LogWish { paths: x.paths.push(pathspec_of(m.cwd, root, value)), ..x })
    }
}

/// What the arguments ask for from where the pass stands.
#[verifier::opaque]
pub open spec fn log_words(m: Machine, root: Seq<char>, p: Pass, x: LogWish) -> Result<
    LogWish,
    Objection,
>
    decreases p.args.len() - p.at,
{
    let (word, q) = next_word(p);
    match word {
        None => Ok(x),
        Some(Word::Operand(value)) => match log_operand(m, root, x, q.operands_only, value) {
            Ok(y) => log_words(m, root, q, y),
            Err(e) => Err(e),
        },
        Some(Word::Option { name, attached }) => {
            let (value, after) = value_for(log_wants(name), q, attached);
            let r = if log_wants(name) == Want::Needed {
                log_valued(x, name, value, clock_seconds(m))
            } else {
                log_plain(x, name, value)
            };
            match r {
                Ok(y) => log_words(m, root, after, y),
                Err(e) => Err(e),
            }
        },
    }
}

/// What the words that were read say.
pub open spec fn log_result(r: Result<LogAsk, Complaint>) -> Result<LogWish, Objection> {
    match r {
        Ok(x) => Ok(x@),
        Err(e) => Err(e@),
    }
}

fn read_log_valued(x: LogAsk, name: &str, value: Option<String>, now: i64) -> (r: Result<
    LogAsk,
    Complaint,
>)
    ensures
        log_result(r) == log_valued(x@, name@, opt_text(value), now as int),
{
    let mut x = x;
    if same(name, "-n") || same(name, "--max-count") {
        match read_count(&value) {
            Some(n) => x.limit = n,
            None => return Err(
                Complaint::Usage(copy_text("log count must be a non-negative integer")),
            ),
        }
        return Ok(x);
    }
    if same(name, "--skip") {
        match read_count(&value) {
            Some(n) => x.skip = n,
            None => return Err(
                Complaint::Usage(copy_text("--skip requires a non-negative integer")),
            ),
        }
        return Ok(x);
    }
    if same(name, "--since") || same(name, "--after") || same(name, "--until") || same(
        name,
        "--before",
    ) {
        return match value {
            None => Err(Complaint::Usage(join2(name, " requires a date"))),
            Some(v) => match parse_date(v.as_str(), now) {
                None => Err(Complaint::Usage(join2("unsupported date: ", v.as_str()))),
                Some(t) => {
                    if same(name, "--since") || same(name, "--after") {
                        x.since = Some(t);
                    } else {
                        x.until = Some(t);
                    }
                    Ok(x)
                },
            },
        };
    }
    if same(name, "--grep") {
        return match value {
            None => Err(Complaint::Usage(copy_text("--grep requires a pattern"))),
            Some(v) => {
                x.message = Some(v);
                Ok(x)
            },
        };
    }
    if same(name, "--author") {
        return match value {
            None => Err(Complaint::Usage(copy_text("--author requires a pattern"))),
            Some(v) => {
                x.author = Some(v);
                Ok(x)
            },
        };
    }
    match value {
        None => Err(Complaint::Usage(join2(name, " requires a string"))),
        Some(v) => {
            if same(name, "-S") {
                x.pickaxe = Some(v);
            } else {
                x.changed_lines = Some(v);
            }
            Ok(x)
        },
    }
}

fn says_no(o: &Option<String>) -> (r: bool)
    ensures
        r == (opt_text(*o) == Some("no"@)),
{
    match o {
        Some(s) => same(s.as_str(), "no"),
        None => false,
    }
}

fn read_log_layout(x: LogAsk, name: &str, attached: Option<String>) -> (r: Result<LogAsk, Complaint>)
    requires
        name@ == "--pretty"@ || name@ == "--format"@,
    ensures
        log_result(r) == match usable_layout(
            match opt_text(attached) {
                Some(v) => v,
                None => ""@,
            },
            name@ == "--format"@,
        ) {
            Some(pretty) => Ok(LogWish { pretty, ..x@ }),
            None => Err(Objection::Fatal("unsupported log format: "@ + name@)),
        },
{
    let mut x = x;
    let word = match attached {
        Some(v) => v,
        None => copy_text(""),
    };
    match parse_pretty(word.as_str(), same(name, "--format")) {
        Some(p) => {
            x.pretty = p;
            Ok(x)
        },
        None => Err(Complaint::Fatal(join2("unsupported log format: ", name))),
    }
}

fn read_log_plain(x: LogAsk, name: &str, attached: Option<String>) -> (r: Result<LogAsk, Complaint>)
    ensures
        log_result(r) == log_plain(x@, name@, opt_text(attached)),
{
    let mut x = x;
    if same(name, "--oneline") {
        x.pretty = Pretty::AbbreviatedOneLine;
    } else if same(name, "--reverse") {
        x.reverse = true;
    } else if same(name, "--decorate") {
        x.decorate = !says_no(&attached);
    } else if same(name, "--no-decorate") || same(name, "--no-color") || same(name, "--color") {
    } else if same(name, "--no-merges") {
        x.no_merges = true;
    } else if same(name, "--merges") {
        x.merges_only = true;
    } else if same(name, "--abbrev-commit") {
        x.abbreviate = true;
    } else if same(name, "--first-parent") {
        x.first_parent = true;
    } else if same(name, "--all") {
        x.all_references = true;
    } else if same(name, "-i") || same(name, "--regexp-ignore-case") {
        x.ignore_case = true;
    } else if same(name, "--graph") {
        x.graph = true;
    } else if same(name, "--no-graph") {
        x.graph = false;
    } else if same(name, "--stat") {
        x.stat = Some(Format::Stat);
    } else if same(name, "--name-only") {
        x.stat = Some(Format::NameOnly);
    } else if same(name, "--name-status") {
        x.stat = Some(Format::NameStatus);
    } else if same(name, "-p") || same(name, "-u") || same(name, "--patch") {
        x.patch = Some(Format::Patch);
    } else if same(name, "--pretty") || same(name, "--format") {
        return read_log_layout(x, name, attached);
    } else {
        match count_option(name) {
            Some(n) => x.limit = n,
            None => return Err(Complaint::Usage(join2("unsupported log option: ", name))),
        }
    }
    Ok(x)
}

fn read_log_operand(system: &System, root: &str, x: LogAsk, separated: bool, value: String) -> (r:
    Result<LogAsk, Complaint>)
    ensures
        log_result(r) == log_operand(system@, root@, x@, separated, value@),
{
    broadcast use lemma_texts_push;

    let mut x = x;
    if !separated && select_revision(system, root, value.as_str()).is_some() {
        x.revisions.push(value);
        return Ok(x);
    }
    if !separated && !names_a_path(system, root, value.as_str()) {
        return Err(Complaint::Ambiguous(value));
    }
    x.paths.push(pathspec(system.cwd().as_str(), root, value.as_str()));
    Ok(x)
}

fn read_log(system: &System, root: &str, flags: Flags) -> (r: Result<LogAsk, Complaint>)
    requires
        in_range(flags@),
    ensures
        log_result(r) == log_words(system@, root@, flags@, plain_log()),
{
    let now = now_seconds(system);
    let mut pass = flags;
    let mut x = LogAsk::new();
    let ghost goal = log_words(system@, root@, flags@, plain_log());
    loop
        invariant
            in_range(pass@),
            now == clock_seconds(system@),
            goal == log_words(system@, root@, flags@, plain_log()),
            goal == log_words(system@, root@, pass@, x@),
        decreases pass@.args.len() - pass@.at,
    {
        proof {
            reveal(log_words);
        }
        match pass.next() {
            None => return Ok(x),
            Some(Arg::Operand(value)) => {
                let separated = pass.separated();
                x = match read_log_operand(system, root, x, separated, value) {
                    Ok(y) => y,
                    Err(e) => return Err(e),
                };
            },
            Some(Arg::Option { name, attached }) => {
                let r = if log_wanted(name.as_str()) == Want::Needed {
                    let value = pass.value(attached);
                    read_log_valued(x, name.as_str(), value, now)
                } else {
                    read_log_plain(x, name.as_str(), attached)
                };
                x = match r {
                    Ok(y) => y,
                    Err(e) => return Err(e),
                };
            },
        }
    }
}

// ---------------------------------------------------------------------------
// Which commits are wanted
// ---------------------------------------------------------------------------

/// The files of the first parent of a commit; none for a commit without parents.
pub open spec fn parent_files(m: Machine, root: Seq<char>, n: Note) -> Files {
    if n.parents.len() > 0 {
        tree_or_empty(m, root, n.parents[0])
    } else {
        seq![]
    }
}

/// The files of the first parent of a commit.
pub fn first_parent_tree(system: &System, root: &str, commit: &Commit) -> (r: Tree)
    ensures
        r@ == parent_files(system@, root@, commit@),
{
    assert(commit@.parents.len() == commit.parents@.len());
    if commit.parents.len() > 0 {
        assert(commit@.parents[0] == commit.parents@[0]@);
        commit_tree_or_empty(system, root, commit.parents[0].as_str())
    } else {
        let none: Tree = crate::order::OrdMap::new();
        assert(none@ =~= seq![]);
        none
    }
}

/// How often a text that holds something occurs, from `from` on.
pub open spec fn occurrences(s: Seq<char>, pat: Seq<char>, from: int) -> nat
    decreases s.len() - from,
{
    match find_from(s, pat, from) {
        Some(k) => if k < from || pat.len() == 0 || k + pat.len() > s.len() {
            0
        } else {
            1 + occurrences(s, pat, k + pat.len())
        },
        None => 0,
    }
}

fn count_occurrences(s: &str, pat: &str) -> (r: usize)
    requires
        pat@.len() > 0,
    ensures
        r == occurrences(s@, pat@, 0),
{
    let text = chars_of(s);
    let needle = chars_of(pat);
    let mut count: usize = 0;
    let mut from: usize = 0;
    loop
        invariant
            text@ == s@,
            needle@ == pat@,
            pat@.len() > 0,
            count <= from <= text@.len(),
            occurrences(s@, pat@, 0) == count + occurrences(s@, pat@, from as int),
        decreases text@.len() - from,
    {
        proof {
            lemma_find_from(s@, pat@, from as int);
        }
        match find_at(text.as_slice(), needle.as_slice(), from) {
            None => return count,
            Some(k) => {
                count += 1;
                from = k + needle.len();
            },
        }
    }
}

/// The content of an object; nothing where there is none.
pub open spec fn blob_text(m: Machine, root: Seq<char>, hash: Option<Seq<char>>) -> Option<Seq<u8>> {
    match hash {
        Some(h) => blob_of(m, root, h),
        None => None,
    }
}

/// The hash that a tree records for a path.
pub open spec fn hash_at(t: Files, path: Seq<char>) -> Option<Seq<char>> {
    match lookup(t, path) {
        Some(r) => Some(r.hash),
        None => None,
    }
}

fn entry_content(system: &System, root: &str, t: &Tree, path: &str) -> (r: Option<Vec<u8>>)
    ensures
        opt_bytes(r) == blob_text(system@, root@, hash_at(t@, path@)),
{
    match t.get(path) {
        Some(e) => read_blob(system, root, e.hash.as_str()),
        None => None,
    }
}

/// How often a text occurs in the content of an object.
pub open spec fn occurrence_count(
    m: Machine,
    root: Seq<char>,
    hash: Option<Seq<char>>,
    needle: Seq<char>,
) -> nat {
    match blob_text(m, root, hash) {
        Some(data) => occurrences(loose_text(data), needle, 0),
        None => 0,
    }
}

/// Whether a path has another number of occurrences on either side.
pub open spec fn count_changed(
    m: Machine,
    root: Seq<char>,
    before: Files,
    after: Files,
    needle: Seq<char>,
    path: Seq<char>,
) -> bool {
    occurrence_count(m, root, hash_at(before, path), needle) != occurrence_count(
        m,
        root,
        hash_at(after, path),
        needle,
    )
}

/// Whether one of some paths has another number of occurrences on either side.
pub open spec fn some_count_changed(
    m: Machine,
    root: Seq<char>,
    before: Files,
    after: Files,
    needle: Seq<char>,
    paths: Seq<Seq<char>>,
) -> bool {
    exists|i: int|
        0 <= i < paths.len() && #[trigger] count_changed(m, root, before, after, needle, paths[i])
}

/// Whether a commit changes how often a text occurs.
pub open spec fn changes_count(m: Machine, root: Seq<char>, e: Listed, needle: Seq<char>) -> bool {
    let before = parent_files(m, root, e.1);
    let after = tree_or_empty(m, root, e.0);
    needle.len() > 0 && some_count_changed(
        m,
        root,
        before,
        after,
        needle,
        changed_paths(before, after, seq![]),
    )
}

fn count_in_blob(system: &System, root: &str, t: &Tree, path: &str, needle: &str) -> (r: usize)
    requires
        needle@.len() > 0,
    ensures
        r == occurrence_count(system@, root@, hash_at(t@, path@), needle@),
{
    match entry_content(system, root, t, path) {
        Some(data) => count_occurrences(decode_lossy(data.as_slice()).as_str(), needle),
        None => 0,
    }
}

/// Whether a commit changes how often a text occurs.
pub fn changes_occurrence_count(
    system: &System,
    root: &str,
    id: &str,
    commit: &Commit,
    needle: &str,
) -> (r: bool)
    ensures
        r == changes_count(system@, root@, (id@, commit@), needle@),
{
    if needle.is_empty() {
        return false;
    }
    let before = first_parent_tree(system, root, commit);
    let after = commit_tree_or_empty(system, root, id);
    let none: Vec<String> = Vec::new();
    assert(texts(none@) =~= seq![]);
    let paths = list_changed(&before, &after, none.as_slice());
    let ghost all = texts(paths@);
    let mut i: usize = 0;
    while i < paths.len()
        invariant
            i <= paths@.len(),
            all == texts(paths@),
            all == changed_paths(before@, after@, seq![]),
            before@ == parent_files(system@, root@, commit@),
            after@ == tree_or_empty(system@, root@, id@),
            needle@.len() > 0,
            forall|k: int|
                0 <= k < i ==> !#[trigger] count_changed(
                    system@,
                    root@,
                    before@,
                    after@,
                    needle@,
                    all[k],
                ),
        decreases paths@.len() - i,
    {
        assert(all.len() == paths@.len());
        assert(all[i as int] == paths@[i as int]@);
        let path = paths[i].as_str();
        if count_in_blob(system, root, &before, path, needle) != count_in_blob(
            system,
            root,
            &after,
            path,
            needle,
        ) {
            assert(count_changed(system@, root@, before@, after@, needle@, all[i as int]));
            assert(some_count_changed(system@, root@, before@, after@, needle@, all));
            return true;
        }
        i += 1;
    }
    false
}

/// The lines of the content of an object; none where there is no such object.
pub open spec fn blob_lines(m: Machine, root: Seq<char>, hash: Option<Seq<char>>) -> Seq<Seq<char>> {
    match blob_text(m, root, hash) {
        Some(data) => lines_of(data),
        None => lines_of(seq![]),
    }
}

/// Whether an edit changes a line in which a pattern is found.
pub open spec fn edit_found(e: (Op, Seq<char>), pattern: Seq<char>, ignore_case: bool) -> bool {
    e.0 != Op::Keep && found_in(pattern, ignore_case, e.1)
}

/// Whether a pattern is found in a line that edits change.
pub open spec fn edits_found(v: Seq<(Op, Seq<char>)>, pattern: Seq<char>, ignore_case: bool) -> bool {
    exists|i: int| 0 <= i < v.len() && #[trigger] edit_found(v[i], pattern, ignore_case)
}

/// Whether a pattern is found in a line of a path that comes or goes.
pub open spec fn lines_found(
    m: Machine,
    root: Seq<char>,
    before: Files,
    after: Files,
    pattern: Seq<char>,
    ignore_case: bool,
    path: Seq<char>,
) -> bool {
    edits_found(
        script(
            blob_lines(m, root, hash_at(before, path)),
            blob_lines(m, root, hash_at(after, path)),
        ),
        pattern,
        ignore_case,
    )
}

/// Whether a pattern is found in a line of one of some paths that comes or goes.
pub open spec fn some_lines_found(
    m: Machine,
    root: Seq<char>,
    before: Files,
    after: Files,
    pattern: Seq<char>,
    ignore_case: bool,
    paths: Seq<Seq<char>>,
) -> bool {
    exists|i: int|
        0 <= i < paths.len() && #[trigger] lines_found(
            m,
            root,
            before,
            after,
            pattern,
            ignore_case,
            paths[i],
        )
}

/// Whether a pattern is found in a line that a commit adds or takes away.
pub open spec fn changes_line(
    m: Machine,
    root: Seq<char>,
    e: Listed,
    pattern: Seq<char>,
    ignore_case: bool,
) -> bool {
    let before = parent_files(m, root, e.1);
    let after = tree_or_empty(m, root, e.0);
    some_lines_found(
        m,
        root,
        before,
        after,
        pattern,
        ignore_case,
        changed_paths(before, after, seq![]),
    )
}

fn lines_at(system: &System, root: &str, t: &Tree, path: &str) -> (r: Vec<String>)
    ensures
        texts(r@) == blob_lines(system@, root@, hash_at(t@, path@)),
{
    match entry_content(system, root, t, path) {
        Some(data) => split_lines(data.as_slice()),
        None => {
            let none: Vec<u8> = Vec::new();
            assert(none@ =~= seq![]);
            split_lines(none.as_slice())
        },
    }
}

fn path_lines_match(
    system: &System,
    root: &str,
    before: &Tree,
    after: &Tree,
    pattern: &str,
    ignore_case: bool,
    path: &str,
) -> (r: bool)
    requires
        regex_refusal(pattern@, ignore_case) is None,
    ensures
        r == lines_found(system@, root@, before@, after@, pattern@, ignore_case, path@),
{
    let a = lines_at(system, root, before, path);
    let b = lines_at(system, root, after, path);
    let edits = edit_script(a.as_slice(), b.as_slice());
    let ghost all = script_of(edits@);
    let mut i: usize = 0;
    while i < edits.len()
        invariant
            i <= edits@.len(),
            all == script_of(edits@),
            all == script(
                blob_lines(system@, root@, hash_at(before@, path@)),
                blob_lines(system@, root@, hash_at(after@, path@)),
            ),
            regex_refusal(pattern@, ignore_case) is None,
            forall|k: int|
                0 <= k < i ==> !#[trigger] edit_found(all[k], pattern@, ignore_case),
        decreases edits@.len() - i,
    {
        assert(all[i as int] == edits@[i as int]@);
        if edits[i].op != Op::Keep && is_found(pattern, ignore_case, edits[i].text.as_str()) {
            assert(edit_found(all[i as int], pattern@, ignore_case));
            assert(edits_found(all, pattern@, ignore_case));
            return true;
        }
        i += 1;
    }
    false
}

/// Whether a pattern is found in a line that a commit adds or takes away.
fn matches_changed_lines(
    system: &System,
    root: &str,
    id: &str,
    commit: &Commit,
    pattern: &str,
    ignore_case: bool,
) -> (r: bool)
    requires
        regex_refusal(pattern@, ignore_case) is None,
    ensures
        r == changes_line(system@, root@, (id@, commit@), pattern@, ignore_case),
{
    let before = first_parent_tree(system, root, commit);
    let after = commit_tree_or_empty(system, root, id);
    let none: Vec<String> = Vec::new();
    assert(texts(none@) =~= seq![]);
    let paths = list_changed(&before, &after, none.as_slice());
    let ghost all = texts(paths@);
    let mut i: usize = 0;
    while i < paths.len()
        invariant
            i <= paths@.len(),
            all == texts(paths@),
            all == changed_paths(before@, after@, seq![]),
            before@ == parent_files(system@, root@, commit@),
            after@ == tree_or_empty(system@, root@, id@),
            regex_refusal(pattern@, ignore_case) is None,
            forall|k: int|
                0 <= k < i ==> !#[trigger] lines_found(
                    system@,
                    root@,
                    before@,
                    after@,
                    pattern@,
                    ignore_case,
                    all[k],
                ),
        decreases paths@.len() - i,
    {
        assert(all.len() == paths@.len());
        assert(all[i as int] == paths@[i as int]@);
        let path = paths[i].as_str();
        if path_lines_match(system, root, &before, &after, pattern, ignore_case, path) {
            assert(lines_found(
                system@,
                root@,
                before@,
                after@,
                pattern@,
                ignore_case,
                all[i as int],
            ));
            assert(some_lines_found(
                system@,
                root@,
                before@,
                after@,
                pattern@,
                ignore_case,
                all,
            ));
            return true;
        }
        i += 1;
    }
    false
}

/// Whether a commit changes a path that is asked for.
pub open spec fn touches(m: Machine, root: Seq<char>, e: Listed, paths: Seq<Seq<char>>) -> bool {
    changed_paths(parent_files(m, root, e.1), tree_or_empty(m, root, e.0), paths).len() > 0
}

/// Whether a commit changes a path that is asked for.
pub fn commit_touches(system: &System, root: &str, id: &str, commit: &Commit, paths: &[String]) -> (r: bool)
    ensures
        r == touches(system@, root@, (id@, commit@), texts(paths@)),
{
    let before = first_parent_tree(system, root, commit);
    let after = commit_tree_or_empty(system, root, id);
    let v = list_changed(&before, &after, paths);
    assert(texts(v@).len() == v@.len());
    v.len() > 0
}

/// What the filters that look at more than the record say of a commit.
#[derive(Clone, Copy, PartialEq, Eq, Structural)]
pub struct Signs {
    /// The pattern for authors is found in the name or the address.
    pub author: bool,
    /// The pattern for messages is found.
    pub message: bool,
    /// The number of occurrences changes.
    pub count: bool,
    /// The pattern for lines is found in one that changes.
    pub lines: bool,
    /// A path that is asked for changes.
    pub touched: bool,
}

/// Whether a commit is wanted, given what the filters say.
pub open spec fn wanted(x: LogWish, n: Note, g: Signs) -> bool {
    &&& x.no_merges ==> n.parents.len() < 2
    &&& x.merges_only ==> n.parents.len() > 1
    &&& x.author is Some ==> g.author
    &&& x.message is Some ==> g.message
    &&& x.since is Some ==> n.timestamp > x.since->0
    &&& x.until is Some ==> n.timestamp <= x.until->0
    &&& x.pickaxe is Some ==> g.count
    &&& x.changed_lines is Some ==> g.lines
    &&& x.paths.len() > 0 ==> g.touched
}

/// Whether a commit is wanted, given what the filters say.
pub fn is_wanted(x: &LogAsk, commit: &Commit, g: Signs) -> (r: bool)
    ensures
        r == wanted(x@, commit@, g),
{
    assert(commit@.parents.len() == commit.parents@.len());
    assert(x@.paths.len() == x.paths@.len());
    let since = match x.since {
        Some(t) => commit.timestamp > t,
        None => true,
    };
    let until = match x.until {
        Some(t) => commit.timestamp <= t,
        None => true,
    };
    (!x.no_merges || commit.parents.len() < 2) && (!x.merges_only || commit.parents.len() > 1)
        && (x.author.is_none() || g.author) && (x.message.is_none() || g.message) && since && until
        && (x.pickaxe.is_none() || g.count) && (x.changed_lines.is_none() || g.lines)
        && (x.paths.len() == 0 || g.touched)
}

/// What the filters say of a commit. A filter that is not asked for says no.
pub open spec fn signs_of(m: Machine, root: Seq<char>, x: LogWish, e: Listed) -> Signs {
    Signs {
        author: match x.author {
            Some(p) => found_in(p, x.ignore_case, e.1.author_name) || found_in(
                p,
                x.ignore_case,
                e.1.author_email,
            ),
            None => false,
        },
        message: match x.message {
            Some(p) => found_in(p, x.ignore_case, e.1.message),
            None => false,
        },
        count: match x.pickaxe {
            Some(needle) => changes_count(m, root, e, needle),
            None => false,
        },
        lines: match x.changed_lines {
            Some(p) => changes_line(m, root, e, p, x.ignore_case),
            None => false,
        },
        touched: x.paths.len() > 0 && touches(m, root, e, x.paths),
    }
}

/// The first pattern that is refused.
pub open spec fn refused_pattern(x: LogWish) -> Option<Seq<char>> {
    if x.author is Some && regex_refusal(x.author->0, x.ignore_case) is Some {
        x.author
    } else if x.message is Some && regex_refusal(x.message->0, x.ignore_case) is Some {
        x.message
    } else if x.changed_lines is Some && regex_refusal(x.changed_lines->0, x.ignore_case) is Some {
        x.changed_lines
    } else {
        None
    }
}

fn find_refused(x: &LogAsk) -> (r: Option<String>)
    ensures
        opt_text(r) == refused_pattern(x@),
{
    if let Some(p) = &x.author {
        if pattern_error(p.as_str(), x.ignore_case).is_some() {
            return Some(copy_text(p.as_str()));
        }
    }
    if let Some(p) = &x.message {
        if pattern_error(p.as_str(), x.ignore_case).is_some() {
            return Some(copy_text(p.as_str()));
        }
    }
    if let Some(p) = &x.changed_lines {
        if pattern_error(p.as_str(), x.ignore_case).is_some() {
            return Some(copy_text(p.as_str()));
        }
    }
    None
}

fn read_signs(system: &System, root: &str, x: &LogAsk, id: &str, commit: &Commit) -> (r: Signs)
    requires
        refused_pattern(x@) is None,
    ensures
        r == signs_of(system@, root@, x@, (id@, commit@)),
{
    let author = match &x.author {
        Some(p) => is_found(p.as_str(), x.ignore_case, commit.author_name.as_str())
            || is_found(p.as_str(), x.ignore_case, commit.author_email.as_str()),
        None => false,
    };
    let message = match &x.message {
        Some(p) => is_found(p.as_str(), x.ignore_case, commit.message.as_str()),
        None => false,
    };
    let count = match &x.pickaxe {
        Some(needle) => changes_occurrence_count(system, root, id, commit, needle.as_str()),
        None => false,
    };
    let lines = match &x.changed_lines {
        Some(p) => matches_changed_lines(system, root, id, commit, p.as_str(), x.ignore_case),
        None => false,
    };
    assert(x@.paths.len() == x.paths@.len());
    let touched = x.paths.len() > 0 && commit_touches(system, root, id, commit, x.paths.as_slice());
    Signs { author, message, count, lines, touched }
}

/// The commits that are wanted.
pub open spec fn sifted(m: Machine, root: Seq<char>, x: LogWish, v: Seq<Listed>) -> Seq<Listed>
    decreases v.len(),
{
    if v.len() == 0 {
        seq![]
    } else {
        let head = sifted(m, root, x, v.drop_last());
        if wanted(x, v.last().1, signs_of(m, root, x, v.last())) {
            head.push(v.last())
        } else {
            head
        }
    }
}

/// The places of the commits that are wanted.
pub open spec fn wanted_places(m: Machine, root: Seq<char>, x: LogWish, v: Seq<Listed>) -> Seq<int>
    decreases v.len(),
{
    if v.len() == 0 {
        seq![]
    } else {
        let head = wanted_places(m, root, x, v.drop_last());
        if wanted(x, v.last().1, signs_of(m, root, x, v.last())) {
            head.push(v.len() - 1)
        } else {
            head
        }
    }
}

/// The commits at some places of a list.
pub open spec fn at_places(v: Seq<Listed>, places: Seq<int>) -> Seq<Listed> {
    places.map_values(|k: int| v[k])
}

proof fn lemma_sifted_places(m: Machine, root: Seq<char>, x: LogWish, v: Seq<Listed>)
    ensures
        sifted(m, root, x, v) == at_places(v, wanted_places(m, root, x, v)),
        forall|i: int|
            0 <= i < wanted_places(m, root, x, v).len() ==> 0 <= #[trigger] wanted_places(
                m,
                root,
                x,
                v,
            )[i] < v.len(),
    decreases v.len(),
{
    if v.len() > 0 {
        let head = v.drop_last();
        lemma_sifted_places(m, root, x, head);
        let places = wanted_places(m, root, x, head);
        assert(at_places(head, places) =~= at_places(v, places));
        assert(sifted(m, root, x, v) =~= at_places(v, wanted_places(m, root, x, v)));
    } else {
        assert(sifted(m, root, x, v) =~= at_places(v, wanted_places(m, root, x, v)));
    }
}

/// Part of a list: the first of it is passed over, what is left is cut off, and it may be turned
/// round.
pub open spec fn portion<T>(v: Seq<T>, skip: int, limit: int, reverse: bool) -> Seq<T> {
    let rest = if skip < v.len() {
        v.skip(skip)
    } else {
        seq![]
    };
    let part = if limit < rest.len() {
        rest.take(limit)
    } else {
        rest
    };
    if reverse {
        part.reverse()
    } else {
        part
    }
}

/// The places as numbers.
pub open spec fn places_of(v: Seq<usize>) -> Seq<int> {
    v.map_values(|k: usize| k as int)
}

fn list_wanted(system: &System, root: &str, x: &LogAsk, v: &[(String, Commit)]) -> (r: Vec<usize>)
    requires
        refused_pattern(x@) is None,
    ensures
        places_of(r@) == wanted_places(system@, root@, x@, listed(v@)),
{
    let ghost all = listed(v@);
    let mut out: Vec<usize> = Vec::new();
    let mut i: usize = 0;
    assert(places_of(out@) =~= seq![]);
    while i < v.len()
        invariant
            i <= v@.len(),
            all == listed(v@),
            refused_pattern(x@) is None,
            places_of(out@) == wanted_places(system@, root@, x@, all.take(i as int)),
        decreases v@.len() - i,
    {
        assert(all.take(i + 1).drop_last() =~= all.take(i as int));
        assert(all.take(i + 1).last() == all[i as int]);
        assert(all[i as int] == (v@[i as int].0@, v@[i as int].1@));
        let g = read_signs(system, root, x, v[i].0.as_str(), &v[i].1);
        if is_wanted(x, &v[i].1, g) {
            let ghost before = out@;
            out.push(i);
            assert(places_of(out@) =~= places_of(before).push(i as int));
        }
        i += 1;
    }
    assert(all.take(i as int) =~= all);
    out
}

fn take_portion(v: &[usize], skip: usize, limit: usize, reverse: bool) -> (r: Vec<usize>)
    ensures
        places_of(r@) == portion(places_of(v@), skip as int, limit as int, reverse),
{
    let start: usize = if skip < v.len() {
        skip
    } else {
        v.len()
    };
    let left: usize = v.len() - start;
    let n: usize = if limit < left {
        limit
    } else {
        left
    };
    let ghost all = places_of(v@);
    let ghost part = portion(all, skip as int, limit as int, false);
    assert(part =~= all.subrange(start as int, start + n));
    let mut out: Vec<usize> = Vec::new();
    let mut i: usize = 0;
    while i < n
        invariant
            i <= n,
            start + n <= v.len(),
            all == places_of(v@),
            part == all.subrange(start as int, start + n),
            out@.len() == i,
            forall|k: int|
                0 <= k < i ==> #[trigger] out@[k] == (if reverse {
                    part[n - 1 - k]
                } else {
                    part[k]
                }),
        decreases n - i,
    {
        if reverse {
            out.push(v[start + (n - 1 - i)]);
        } else {
            out.push(v[start + i]);
        }
        i += 1;
    }
    if reverse {
        assert(places_of(out@) =~= part.reverse());
    } else {
        assert(places_of(out@) =~= part);
    }
    out
}

/// Cutting a list of places is cutting the list itself.
proof fn lemma_portion_places(v: Seq<Listed>, places: Seq<int>, skip: int, limit: int, reverse: bool)
    requires
        0 <= skip,
        0 <= limit,
    ensures
        at_places(v, portion(places, skip, limit, reverse)) == portion(
            at_places(v, places),
            skip,
            limit,
            reverse,
        ),
{
    assert(at_places(v, portion(places, skip, limit, reverse)) =~= portion(
        at_places(v, places),
        skip,
        limit,
        reverse,
    ));
}

proof fn lemma_portion_within(places: Seq<int>, n: int, skip: int, limit: int, reverse: bool)
    requires
        0 <= skip,
        0 <= limit,
        forall|i: int| 0 <= i < places.len() ==> 0 <= #[trigger] places[i] < n,
    ensures
        forall|i: int|
            0 <= i < portion(places, skip, limit, reverse).len() ==> 0 <= #[trigger] portion(
                places,
                skip,
                limit,
                reverse,
            )[i] < n,
{
    let part = portion(places, skip, limit, false);
    assert forall|i: int| 0 <= i < part.len() implies 0 <= #[trigger] part[i] < n by {
        assert(part[i] == places[skip + i]);
    }
    let v = portion(places, skip, limit, reverse);
    assert forall|i: int| 0 <= i < v.len() implies 0 <= #[trigger] v[i] < n by {
        if reverse {
            assert(v =~= part.reverse());
            assert(v[i] == part[part.len() - 1 - i]);
        } else {
            assert(v[i] == part[i]);
        }
    }
}

// ---------------------------------------------------------------------------
// Printing
// ---------------------------------------------------------------------------

/// What a commit changes against its first parent.
pub open spec fn commit_diff(
    m: Machine,
    root: Seq<char>,
    e: Listed,
    format: Format,
    paths: Seq<Seq<char>>,
) -> Seq<char> {
    comparison(
        m,
        root,
        parent_files(m, root, e.1),
        tree_or_empty(m, root, e.0),
        Shape { paths, ..shape_of(format) },
    ).0
}

/// What a commit changes against its first parent.
pub fn render_commit_diff(
    system: &System,
    root: &str,
    id: &str,
    commit: &Commit,
    format: Format,
    paths: &[String],
) -> (r: String)
    ensures
        r@ == commit_diff(system@, root@, (id@, commit@), format, texts(paths@)),
{
    let before = first_parent_tree(system, root, commit);
    let after = commit_tree_or_empty(system, root, id);
    let mut o = options_of(format);
    o.paths = copy_texts(paths);
    assert(o@ =~= Shape { paths: texts(paths@), ..shape_of(format) });
    compare_trees(system, root, &before, &after, &o).0
}

/// The difference behind a header, in one format.
pub open spec fn diff_part(
    m: Machine,
    root: Seq<char>,
    x: LogWish,
    e: Listed,
    format: Option<Format>,
) -> Seq<char> {
    match format {
        None => ""@,
        Some(f) => (if spaced(x.pretty) {
            "\n"@
        } else {
            ""@
        }) + commit_diff(m, root, e, f, x.paths),
    }
}

fn render_part(
    system: &System,
    root: &str,
    x: &LogAsk,
    id: &str,
    commit: &Commit,
    format: Option<Format>,
) -> (r: String)
    ensures
        r@ == diff_part(system@, root@, x@, (id@, commit@), format),
{
    match format {
        None => copy_text(""),
        Some(f) => join2(
            if x.pretty.diff_needs_spacing() {
                "\n"
            } else {
                ""
            },
            render_commit_diff(system, root, id, commit, f, x.paths.as_slice()).as_str(),
        ),
    }
}

/// The header of a commit as `git log` writes it.
pub open spec fn log_header(m: Machine, root: Seq<char>, x: LogWish, e: Listed) -> Seq<char> {
    header_text(
        Entry {
            id: if x.abbreviate {
                short_id(e.0)
            } else {
                e.0
            },
            note: e.1,
            decoration: if x.decorate || is_template(x.pretty) {
                decoration_of(m, root, e.0)
            } else {
                ""@
            },
            now: clock_seconds(m),
        },
        x.pretty,
    )
}

/// All that is written of one commit.
pub open spec fn block_text(m: Machine, root: Seq<char>, x: LogWish, e: Listed, first: bool) -> Seq<char> {
    (if set_apart(x.pretty) && !first {
        "\n"@
    } else {
        ""@
    }) + log_header(m, root, x, e) + (if is_terminated(x.pretty) {
        "\n"@
    } else {
        ""@
    }) + diff_part(m, root, x, e, x.stat) + diff_part(m, root, x, e, x.patch)
}

/// What is written of commits, and the columns of the rail after them.
pub open spec fn log_text(m: Machine, root: Seq<char>, x: LogWish, v: Seq<Listed>) -> (
    Seq<char>,
    Seq<Seq<char>>,
)
    decreases v.len(),
{
    if v.len() == 0 {
        (""@, seq![])
    } else {
        let (text, columns) = log_text(m, root, x, v.drop_last());
        let e = v.last();
        let block = block_text(m, root, x, e, v.len() == 1);
        if x.graph {
            let (after, step) = advanced(columns, e.0, e.1.parents);
            let head: int = if set_apart(x.pretty) && v.len() != 1 {
                1
            } else {
                0
            };
            (text + drawn(block, step, head), after)
        } else {
            (text + block, columns)
        }
    }
}

fn render_block(system: &System, root: &str, x: &LogAsk, id: &str, commit: &Commit, first: bool) -> (r:
    String)
    ensures
        r@ == block_text(system@, root@, x@, (id@, commit@), first),
{
    let decoration = if x.decorate || x.pretty.is_template() {
        decorations(system, root, id)
    } else {
        copy_text("")
    };
    let cut = short(id);
    let shown = if x.abbreviate {
        cut.as_str()
    } else {
        id
    };
    let header = render_commit_header(
        shown,
        commit,
        &x.pretty,
        decoration.as_str(),
        now_seconds(system),
    );
    let mut out = join3(
        if x.pretty.sets_apart() && !first {
            "\n"
        } else {
            ""
        },
        header.as_str(),
        if x.pretty.is_terminated() {
            "\n"
        } else {
            ""
        },
    );
    out.append(render_part(system, root, x, id, commit, x.stat).as_str());
    out.append(render_part(system, root, x, id, commit, x.patch).as_str());
    out
}

fn render_log(system: &System, root: &str, x: &LogAsk, v: &[(String, Commit)], places: &[usize]) -> (r:
    String)
    requires
        forall|i: int| 0 <= i < places@.len() ==> (#[trigger] places@[i]) < v@.len(),
    ensures
        r@ == log_text(system@, root@, x@, at_places(listed(v@), places_of(places@))).0,
{
    let ghost all = at_places(listed(v@), places_of(places@));
    let mut rail = Rail::new();
    let mut out = copy_text("");
    let mut i: usize = 0;
    assert(rail@ =~= seq![]);
    while i < places.len()
        invariant
            i <= places@.len(),
            all == at_places(listed(v@), places_of(places@)),
            forall|k: int| 0 <= k < places@.len() ==> (#[trigger] places@[k]) < v@.len(),
            (out@, rail@) == log_text(system@, root@, x@, all.take(i as int)),
        decreases places@.len() - i,
    {
        assert(all.take(i + 1).drop_last() =~= all.take(i as int));
        let e = &v[places[i]];
        assert(all[i as int] == listed(v@)[places@[i as int] as int]);
        assert(all.take(i + 1).last() == (e.0@, e.1@));
        let block = render_block(system, root, x, e.0.as_str(), &e.1, i == 0);
        if x.graph {
            let rung = rail.advance(e.0.as_str(), e.1.parents.as_slice());
            let head: usize = if x.pretty.sets_apart() && i != 0 {
                1
            } else {
                0
            };
            out.append(draw_on_rail(block.as_str(), &rung, head).as_str());
        } else {
            out.append(block.as_str());
        }
        i += 1;
    }
    assert(all.take(i as int) =~= all);
    out
}

// ---------------------------------------------------------------------------
// git log
// ---------------------------------------------------------------------------

/// The complaint where no history can be listed.
pub open spec fn log_empty(m: Machine, s: Screen, root: Seq<char>, revisions: Seq<Seq<char>>) -> Done {
    if head_id(m, root) is None {
        failed(
            m,
            s,
            "your current branch '"@ + match branch_of(m, root) {
                Some(b) => b,
                None => "HEAD"@,
            } + "' does not have any commits yet"@,
        )
    } else {
        ambiguous(m, s, joined(revisions, " "@))
    }
}

/// `git log` in a repository, with what is asked for.
#[verifier::opaque]
pub open spec fn log_within(m: Machine, s: Screen, root: Seq<char>, x: LogWish) -> Done {
    let revisions = starting_points(m, root, x.revisions, x.all_references);
    match history_of(m, root, revisions, x.first_parent) {
        None => log_empty(m, s, root, revisions),
        Some(v) => match refused_pattern(x) {
            Some(p) => failed(m, s, "invalid pattern: "@ + p),
            None => Done {
                m,
                s: printed(
                    s,
                    log_text(
                        m,
                        root,
                        x,
                        portion(sifted(m, root, x, v), x.skip, x.limit, x.reverse),
                    ).0,
                ),
                status: 0,
            },
        },
    }
}

/// `git log`.
pub open spec fn log_done(m: Machine, s: Screen, args: Seq<Seq<char>>) -> Done {
    match repo_root(m) {
        None => no_repo(m, s),
        Some(root) => match log_words(m, root, pass_for(args, ""@, "nSG"@), plain_log()) {
            Err(o) => objected(m, s, o),
            Ok(x) => log_within(m, s, root, x),
        },
    }
}

fn show_log(system: &System, root: &str, x: &LogAsk, io: &mut Io) -> (r: i32)
    ensures
        done(system@, final(io)@, r) == log_within(system@, old(io)@, root@, x@),
{
    proof {
        reveal(log_within);
    }
    let revisions = list_starting_points(system, root, x.revisions.as_slice(), x.all_references);
    let v = match history_for(system, root, revisions.as_slice(), x.first_parent) {
        Some(v) => v,
        None => {
            if head_commit(system, root).is_none() {
                let branch = match current_branch(system, root) {
                    Some(b) => b,
                    None => copy_text("HEAD"),
                };
                return fatal(
                    io,
                    join3(
                        "your current branch '",
                        branch.as_str(),
                        "' does not have any commits yet",
                    ).as_str(),
                );
            }
            return ambiguous_argument(io, join(revisions.as_slice(), " ").as_str());
        },
    };
    if let Some(p) = find_refused(x) {
        return fatal(io, join2("invalid pattern: ", p.as_str()).as_str());
    }
    let places = list_wanted(system, root, x, v.as_slice());
    let part = take_portion(places.as_slice(), x.skip, x.limit, x.reverse);
    proof {
        let all = listed(v@);
        lemma_sifted_places(system@, root@, x@, all);
        lemma_portion_places(all, places_of(places@), x.skip as int, x.limit as int, x.reverse);
        lemma_portion_within(
            places_of(places@),
            all.len() as int,
            x.skip as int,
            x.limit as int,
            x.reverse,
        );
        assert forall|i: int| 0 <= i < part@.len() implies (#[trigger] part@[i]) < v@.len() by {
            assert(places_of(part@)[i] == part@[i]);
        }
    }
    io.print(render_log(system, root, x, v.as_slice(), part.as_slice()).as_str());
    0
}

/// `git log`: lists commits.
pub fn git_log(system: &mut System, args: &[String], io: &mut Io) -> (r: i32)
    ensures
        done(final(system)@, final(io)@, r) == log_done(old(system)@, old(io)@, texts(args@)),
{
    let root = match find_repo_root(system) {
        Some(root) => root,
        None => return repo_error(io),
    };
    let x = match read_log(system, root.as_str(), flags_for(args, "", "nSG")) {
        Ok(x) => x,
        Err(c) => {
            assert(objected(system@, io@, c@).m == system@);
            return c.report(io);
        },
    };
    show_log(system, root.as_str(), &x, io)
}

} // verus!
