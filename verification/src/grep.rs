//! `grep`, `egrep` and `fgrep`.
//!
//! Searching stays within the files of the machine. Reading patterns and inputs is charged to its
//! budgets.

use vstd::prelude::*;
use vstd::utf8::{decode_utf8, valid_utf8};

use crate::bytes::decode;
use crate::common::{describe_unreadable, done, unreadable};
use crate::console::{complained, printed, Done, Io, Screen};
use crate::numbers::{decimal, format_usize, parse_usize, read_unsigned};
use crate::order::{bind, lookup, OrdMap};
use crate::patterns::{
    basic_to_extended, escape, escaped, extended, find_hits, hits_of, lemma_plain_text_is_found, pattern_error,
    pattern_pieces, regex_pieces, regex_refusal,
};
use crate::registry::{light, reg, CommandSpec, Program, Trust};
use crate::system::{
    base_name, basename, bytes_at, charged, paths_inside, reserved, resolve_against, resolved, Machine, Node, System,
    Thing, STOPPED,
};
use crate::text::{
    after_prefix, chars_of, copy_bytes, copy_text, copy_texts, cut, cut_once, holds, join, join2, join3, join4,
    joined, lemma_texts_push, line_list, lines, opt_text, pieces, same, split, split_once, starts, starts_with,
    strip_prefix, texts,
};
use crate::wildcards::{glob_eq, wildcard};

verus! {

/// Enters the commands of this module.
pub fn register(m: &mut OrdMap<CommandSpec>)
    ensures
        final(m)@ == bind(
            bind(
                bind(old(m)@, "grep"@, light(Trust::Partial, Program::Grep)),
                "egrep"@,
                light(Trust::Partial, Program::Egrep),
            ),
            "fgrep"@,
            light(Trust::Partial, Program::Fgrep),
        ),
{
    reg(m, "grep", Trust::Partial, Program::Grep);
    reg(m, "egrep", Trust::Partial, Program::Egrep);
    reg(m, "fgrep", Trust::Partial, Program::Fgrep);
}

// ---------------------------------------------------------------------------
// Options
// ---------------------------------------------------------------------------

/// The options without a value.
#[derive(Clone, Copy, PartialEq, Eq, Structural)]
pub enum Flag {
    IgnoreCase,
    Invert,
    Count,
    LineNumber,
    FilesWith,
    FilesWithout,
    OnlyMatch,
    Recursive,
    Extended,
    Fixed,
    Word,
    Line,
    Quiet,
    NoFilename,
    WithFilename,
    SuppressErrors,
    Text,
    Help,
}

/// The options with a value.
#[derive(Clone, Copy, PartialEq, Eq, Structural)]
pub enum Setting {
    Regexp,
    PatternFile,
    MaxCount,
    Only,
    Exclude,
    ExcludeDir,
    BeforeContext,
    AfterContext,
    Context,
}

/// What an option is.
#[derive(Clone, Copy, PartialEq, Eq, Structural)]
pub enum Kind {
    Plain(Flag),
    Valued(Setting),
    Color,
    Unknown,
}

/// The option that a letter stands for.
pub open spec fn short_kind(c: char) -> Kind {
    if c == 'i' {
        Kind::Plain(Flag::IgnoreCase)
    } else if c == 'v' {
        Kind::Plain(Flag::Invert)
    } else if c == 'c' {
        Kind::Plain(Flag::Count)
    } else if c == 'n' {
        Kind::Plain(Flag::LineNumber)
    } else if c == 'l' {
        Kind::Plain(Flag::FilesWith)
    } else if c == 'L' {
        Kind::Plain(Flag::FilesWithout)
    } else if c == 'o' {
        Kind::Plain(Flag::OnlyMatch)
    } else if c == 'r' || c == 'R' {
        Kind::Plain(Flag::Recursive)
    } else if c == 'E' {
        Kind::Plain(Flag::Extended)
    } else if c == 'F' {
        Kind::Plain(Flag::Fixed)
    } else if c == 'w' {
        Kind::Plain(Flag::Word)
    } else if c == 'x' {
        Kind::Plain(Flag::Line)
    } else if c == 'q' {
        Kind::Plain(Flag::Quiet)
    } else if c == 'h' {
        Kind::Plain(Flag::NoFilename)
    } else if c == 'H' {
        Kind::Plain(Flag::WithFilename)
    } else if c == 's' {
        Kind::Plain(Flag::SuppressErrors)
    } else if c == 'a' {
        Kind::Plain(Flag::Text)
    } else if c == 'e' {
        Kind::Valued(Setting::Regexp)
    } else if c == 'f' {
        Kind::Valued(Setting::PatternFile)
    } else if c == 'm' {
        Kind::Valued(Setting::MaxCount)
    } else if c == 'B' {
        Kind::Valued(Setting::BeforeContext)
    } else if c == 'A' {
        Kind::Valued(Setting::AfterContext)
    } else if c == 'C' {
        Kind::Valued(Setting::Context)
    } else {
        Kind::Unknown
    }
}

fn kind_of_letter(c: char) -> (r: Kind)
    ensures
        r == short_kind(c),
{
    if c == 'i' {
        Kind::Plain(Flag::IgnoreCase)
    } else if c == 'v' {
        Kind::Plain(Flag::Invert)
    } else if c == 'c' {
        Kind::Plain(Flag::Count)
    } else if c == 'n' {
        Kind::Plain(Flag::LineNumber)
    } else if c == 'l' {
        Kind::Plain(Flag::FilesWith)
    } else if c == 'L' {
        Kind::Plain(Flag::FilesWithout)
    } else if c == 'o' {
        Kind::Plain(Flag::OnlyMatch)
    } else if c == 'r' || c == 'R' {
        Kind::Plain(Flag::Recursive)
    } else if c == 'E' {
        Kind::Plain(Flag::Extended)
    } else if c == 'F' {
        Kind::Plain(Flag::Fixed)
    } else if c == 'w' {
        Kind::Plain(Flag::Word)
    } else if c == 'x' {
        Kind::Plain(Flag::Line)
    } else if c == 'q' {
        Kind::Plain(Flag::Quiet)
    } else if c == 'h' {
        Kind::Plain(Flag::NoFilename)
    } else if c == 'H' {
        Kind::Plain(Flag::WithFilename)
    } else if c == 's' {
        Kind::Plain(Flag::SuppressErrors)
    } else if c == 'a' {
        Kind::Plain(Flag::Text)
    } else if c == 'e' {
        Kind::Valued(Setting::Regexp)
    } else if c == 'f' {
        Kind::Valued(Setting::PatternFile)
    } else if c == 'm' {
        Kind::Valued(Setting::MaxCount)
    } else if c == 'B' {
        Kind::Valued(Setting::BeforeContext)
    } else if c == 'A' {
        Kind::Valued(Setting::AfterContext)
    } else if c == 'C' {
        Kind::Valued(Setting::Context)
    } else {
        Kind::Unknown
    }
}

/// The option that a word stands for.
pub open spec fn long_kind(name: Seq<char>) -> Kind {
    if name == "ignore-case"@ {
        Kind::Plain(Flag::IgnoreCase)
    } else if name == "invert-match"@ {
        Kind::Plain(Flag::Invert)
    } else if name == "count"@ {
        Kind::Plain(Flag::Count)
    } else if name == "line-number"@ {
        Kind::Plain(Flag::LineNumber)
    } else if name == "files-with-matches"@ {
        Kind::Plain(Flag::FilesWith)
    } else if name == "files-without-match"@ {
        Kind::Plain(Flag::FilesWithout)
    } else if name == "only-matching"@ {
        Kind::Plain(Flag::OnlyMatch)
    } else if name == "recursive"@ || name == "dereference-recursive"@ {
        Kind::Plain(Flag::Recursive)
    } else if name == "extended-regexp"@ {
        Kind::Plain(Flag::Extended)
    } else if name == "fixed-strings"@ {
        Kind::Plain(Flag::Fixed)
    } else if name == "word-regexp"@ {
        Kind::Plain(Flag::Word)
    } else if name == "line-regexp"@ {
        Kind::Plain(Flag::Line)
    } else if name == "quiet"@ || name == "silent"@ {
        Kind::Plain(Flag::Quiet)
    } else if name == "no-filename"@ {
        Kind::Plain(Flag::NoFilename)
    } else if name == "with-filename"@ {
        Kind::Plain(Flag::WithFilename)
    } else if name == "no-messages"@ {
        Kind::Plain(Flag::SuppressErrors)
    } else if name == "text"@ {
        Kind::Plain(Flag::Text)
    } else if name == "help"@ {
        Kind::Plain(Flag::Help)
    } else if name == "regexp"@ {
        Kind::Valued(Setting::Regexp)
    } else if name == "file"@ {
        Kind::Valued(Setting::PatternFile)
    } else if name == "max-count"@ {
        Kind::Valued(Setting::MaxCount)
    } else if name == "include"@ {
        Kind::Valued(Setting::Only)
    } else if name == "exclude"@ {
        Kind::Valued(Setting::Exclude)
    } else if name == "exclude-dir"@ {
        Kind::Valued(Setting::ExcludeDir)
    } else if name == "before-context"@ {
        Kind::Valued(Setting::BeforeContext)
    } else if name == "after-context"@ {
        Kind::Valued(Setting::AfterContext)
    } else if name == "context"@ {
        Kind::Valued(Setting::Context)
    } else if name == "color"@ {
        Kind::Color
    } else {
        Kind::Unknown
    }
}

fn kind_of_word(name: &str) -> (r: Kind)
    ensures
        r == long_kind(name@),
{
    if same(name, "ignore-case") {
        Kind::Plain(Flag::IgnoreCase)
    } else if same(name, "invert-match") {
        Kind::Plain(Flag::Invert)
    } else if same(name, "count") {
        Kind::Plain(Flag::Count)
    } else if same(name, "line-number") {
        Kind::Plain(Flag::LineNumber)
    } else if same(name, "files-with-matches") {
        Kind::Plain(Flag::FilesWith)
    } else if same(name, "files-without-match") {
        Kind::Plain(Flag::FilesWithout)
    } else if same(name, "only-matching") {
        Kind::Plain(Flag::OnlyMatch)
    } else if same(name, "recursive") || same(name, "dereference-recursive") {
        Kind::Plain(Flag::Recursive)
    } else if same(name, "extended-regexp") {
        Kind::Plain(Flag::Extended)
    } else if same(name, "fixed-strings") {
        Kind::Plain(Flag::Fixed)
    } else if same(name, "word-regexp") {
        Kind::Plain(Flag::Word)
    } else if same(name, "line-regexp") {
        Kind::Plain(Flag::Line)
    } else if same(name, "quiet") || same(name, "silent") {
        Kind::Plain(Flag::Quiet)
    } else if same(name, "no-filename") {
        Kind::Plain(Flag::NoFilename)
    } else if same(name, "with-filename") {
        Kind::Plain(Flag::WithFilename)
    } else if same(name, "no-messages") {
        Kind::Plain(Flag::SuppressErrors)
    } else if same(name, "text") {
        Kind::Plain(Flag::Text)
    } else if same(name, "help") {
        Kind::Plain(Flag::Help)
    } else if same(name, "regexp") {
        Kind::Valued(Setting::Regexp)
    } else if same(name, "file") {
        Kind::Valued(Setting::PatternFile)
    } else if same(name, "max-count") {
        Kind::Valued(Setting::MaxCount)
    } else if same(name, "include") {
        Kind::Valued(Setting::Only)
    } else if same(name, "exclude") {
        Kind::Valued(Setting::Exclude)
    } else if same(name, "exclude-dir") {
        Kind::Valued(Setting::ExcludeDir)
    } else if same(name, "before-context") {
        Kind::Valued(Setting::BeforeContext)
    } else if same(name, "after-context") {
        Kind::Valued(Setting::AfterContext)
    } else if same(name, "context") {
        Kind::Valued(Setting::Context)
    } else if same(name, "color") {
        Kind::Color
    } else {
        Kind::Unknown
    }
}

/// An option that was given, with its value.
pub enum Chosen {
    Plain(Flag),
    Valued(Setting, String),
    Color(Option<String>),
}

/// An option that was given, with its value.
pub enum Choice {
    Plain(Flag),
    Valued(Setting, Seq<char>),
    Color(Option<Seq<char>>),
}

impl View for Chosen {
    type V = Choice;

    open spec fn view(&self) -> Choice {
        match *self {
            Chosen::Plain(f) => Choice::Plain(f),
            Chosen::Valued(k, v) => Choice::Valued(k, v@),
            Chosen::Color(v) => Choice::Color(opt_text(v)),
        }
    }
}

/// What a list of options holds.
pub open spec fn choices(v: Seq<Chosen>) -> Seq<Choice> {
    v.map_values(|c: Chosen| c@)
}

proof fn lemma_choices_push(v: Seq<Chosen>, c: Chosen)
    ensures
        choices(v.push(c)) == choices(v).push(c@),
{
    assert(choices(v.push(c)) =~= choices(v).push(c@));
}

/// The options of a cluster of letters from `k` on, and whether the last took the next argument for
/// its value; or the complaint.
pub open spec fn cluster_read(w: Seq<char>, k: int, next: Option<Seq<char>>, v: Seq<Choice>) -> Result<
    (Seq<Choice>, bool),
    Seq<char>,
>
    decreases w.len() - k,
{
    if k < 0 || k >= w.len() {
        Ok((v, false))
    } else {
        match short_kind(w[k]) {
            Kind::Plain(f) => cluster_read(w, k + 1, next, v.push(Choice::Plain(f))),
            Kind::Valued(x) => if k + 1 < w.len() {
                Ok((v.push(Choice::Valued(x, w.subrange(k + 1, w.len() as int))), false))
            } else {
                match next {
                    Some(value) => Ok((v.push(Choice::Valued(x, value)), true)),
                    None => Err("option requires an argument -- '"@ + seq![w[k]] + "'"@),
                }
            },
            _ => Err("invalid option -- '"@ + seq![w[k]] + "'"@),
        }
    }
}

fn quoted_letter(before: &str, c: char) -> (r: String)
    ensures
        r@ == before@ + seq![c] + "'"@,
{
    let mut out = copy_text(before);
    out.push(c);
    assert(out@ =~= before@ + seq![c]);
    out.append("'");
    out
}

fn read_cluster(word: &str, next: Option<&String>, options: &mut Vec<Chosen>) -> (r: Result<bool, String>)
    ensures
        match r {
            Ok(used) => cluster_read(
                word@,
                1,
                match next {
                    Some(n) => Some(n@),
                    None => None,
                },
                choices(old(options)@),
            ) == Ok::<(Seq<Choice>, bool), Seq<char>>((choices(final(options)@), used)),
            Err(e) => cluster_read(
                word@,
                1,
                match next {
                    Some(n) => Some(n@),
                    None => None,
                },
                choices(old(options)@),
            ) == Err::<(Seq<Choice>, bool), Seq<char>>(e@),
        },
        r is Ok && r->Ok_0 ==> next is Some,
{
    let w = chars_of(word);
    let ghost after: Option<Seq<char>> = match next {
        Some(n) => Some(n@),
        None => None,
    };
    let ghost goal = cluster_read(word@, 1, after, choices(options@));
    let mut k: usize = 1;
    while k < w.len()
        invariant
            w@ == word@,
            1 <= k,
            after == match next {
                Some(n) => Some(n@),
                None => None::<Seq<char>>,
            },
            goal == cluster_read(word@, 1, after, choices(old(options)@)),
            goal == cluster_read(word@, k as int, after, choices(options@)),
        decreases w@.len() - k,
    {
        let c = w[k];
        let ghost was = options@;
        match kind_of_letter(c) {
            Kind::Plain(f) => {
                options.push(Chosen::Plain(f));
                proof {
                    lemma_choices_push(was, Chosen::Plain(f));
                }
            },
            Kind::Valued(x) => {
                if k + 1 < w.len() {
                    let given = Chosen::Valued(x, cut(w.as_slice(), k + 1, w.len()));
                    let ghost g = given;
                    options.push(given);
                    proof {
                        lemma_choices_push(was, g);
                    }
                    return Ok(false);
                }
                match next {
                    Some(value) => {
                        let given = Chosen::Valued(x, copy_text(value.as_str()));
                        let ghost g = given;
                        options.push(given);
                        proof {
                            lemma_choices_push(was, g);
                        }
                        return Ok(true);
                    },
                    None => return Err(quoted_letter("option requires an argument -- '", c)),
                }
            },
            _ => return Err(quoted_letter("invalid option -- '", c)),
        }
        k += 1;
    }
    Ok(false)
}

/// The options and the operands of the arguments from `i` on, with those that were read before; or
/// the complaint. An option may stand behind an operand; everything behind `--` is an operand.
pub open spec fn grep_words(args: Seq<Seq<char>>, v: Seq<Choice>, operands: Seq<Seq<char>>, i: int) -> Result<
    (Seq<Choice>, Seq<Seq<char>>),
    Seq<char>,
>
    decreases args.len() - i,
{
    if i < 0 || i >= args.len() {
        Ok((v, operands))
    } else {
        let a = args[i];
        let next = if i + 1 < args.len() {
            Some(args[i + 1])
        } else {
            None
        };
        if a == "--"@ {
            Ok((v, operands + args.subrange(i + 1, args.len() as int)))
        } else {
            match after_prefix(a, "--"@) {
                Some(long) => {
                    let (name, attached) = match cut_once(long, '=') {
                        Some((name, value)) => (name, Some(value)),
                        None => (long, None),
                    };
                    match long_kind(name) {
                        Kind::Plain(f) => if attached is Some {
                            Err("option '--"@ + name + "' doesn't allow an argument"@)
                        } else {
                            grep_words(args, v.push(Choice::Plain(f)), operands, i + 1)
                        },
                        Kind::Color => grep_words(
                            args,
                            v.push(Choice::Color(attached)),
                            operands,
                            i + 1,
                        ),
                        Kind::Valued(x) => match attached {
                            Some(value) => grep_words(
                                args,
                                v.push(Choice::Valued(x, value)),
                                operands,
                                i + 1,
                            ),
                            None => match next {
                                Some(value) => grep_words(
                                    args,
                                    v.push(Choice::Valued(x, value)),
                                    operands,
                                    i + 2,
                                ),
                                None => Err("option '--"@ + name + "' requires an argument"@),
                            },
                        },
                        Kind::Unknown => Err("unrecognized option '--"@ + name + "'"@),
                    }
                },
                None => if starts(a, "-"@) && a.len() > 1 {
                    match cluster_read(a, 1, next, v) {
                        Err(e) => Err(e),
                        Ok((more, used)) => if used && next is Some {
                            grep_words(args, more, operands, i + 2)
                        } else {
                            grep_words(args, more, operands, i + 1)
                        },
                    }
                } else {
                    grep_words(args, v, operands.push(a), i + 1)
                },
            }
        }
    }
}

fn read_long(long: &str, next: Option<&String>, options: &mut Vec<Chosen>) -> (r: Result<bool, String>)
    ensures
        ({
            let (name, attached) = match cut_once(long@, '=') {
                Some((name, value)) => (name, Some(value)),
                None => (long@, None::<Seq<char>>),
            };
            let v = choices(old(options)@);
            match long_kind(name) {
                Kind::Plain(f) => if attached is Some {
                    r is Err && r->Err_0@ == "option '--"@ + name + "' doesn't allow an argument"@
                } else {
                    r == Ok::<bool, String>(false) && choices(final(options)@) == v.push(
                        Choice::Plain(f),
                    )
                },
                Kind::Color => r == Ok::<bool, String>(false) && choices(final(options)@) == v.push(
                    Choice::Color(attached),
                ),
                Kind::Valued(x) => match attached {
                    Some(value) => r == Ok::<bool, String>(false) && choices(final(options)@)
                        == v.push(Choice::Valued(x, value)),
                    None => match next {
                        Some(value) => r == Ok::<bool, String>(true) && choices(final(options)@)
                            == v.push(Choice::Valued(x, value@)),
                        None => r is Err && r->Err_0@ == "option '--"@ + name
                            + "' requires an argument"@,
                    },
                },
                Kind::Unknown => r is Err && r->Err_0@ == "unrecognized option '--"@ + name + "'"@,
            }
        }),
{
    let (name, attached) = match split_once(long, '=') {
        Some((name, value)) => (name, Some(value)),
        None => (copy_text(long), None),
    };
    let ghost was = options@;
    match kind_of_word(name.as_str()) {
        Kind::Plain(f) => {
            if attached.is_some() {
                return Err(join3("option '--", name.as_str(), "' doesn't allow an argument"));
            }
            options.push(Chosen::Plain(f));
            proof {
                lemma_choices_push(was, Chosen::Plain(f));
            }
            Ok(false)
        },
        Kind::Color => {
            let given = Chosen::Color(attached);
            let ghost g = given;
            options.push(given);
            proof {
                lemma_choices_push(was, g);
            }
            Ok(false)
        },
        Kind::Valued(x) => match attached {
            Some(value) => {
                let given = Chosen::Valued(x, value);
                let ghost g = given;
                options.push(given);
                proof {
                    lemma_choices_push(was, g);
                }
                Ok(false)
            },
            None => match next {
                Some(value) => {
                    let given = Chosen::Valued(x, copy_text(value.as_str()));
                    let ghost g = given;
                    options.push(given);
                    proof {
                        lemma_choices_push(was, g);
                    }
                    Ok(true)
                },
                None => Err(join3("option '--", name.as_str(), "' requires an argument")),
            },
        },
        Kind::Unknown => Err(join3("unrecognized option '--", name.as_str(), "'")),
    }
}

/// What reading the arguments gave.
pub open spec fn grep_words_of(r: Result<(Vec<Chosen>, Vec<String>), String>) -> Result<
    (Seq<Choice>, Seq<Seq<char>>),
    Seq<char>,
> {
    match r {
        Ok((v, operands)) => Ok((choices(v@), texts(operands@))),
        Err(e) => Err(e@),
    }
}

/// Reads the options and the operands.
pub fn read_grep(args: &[String]) -> (r: Result<(Vec<Chosen>, Vec<String>), String>)
    ensures
        grep_words_of(r) == grep_words(texts(args@), seq![], seq![], 0),
{
    let ghost all = texts(args@);
    let mut options: Vec<Chosen> = Vec::new();
    let mut operands: Vec<String> = Vec::new();
    let mut i: usize = 0;
    assert(choices(options@) =~= seq![]);
    assert(texts(operands@) =~= seq![]);
    let ghost goal = grep_words(all, seq![], seq![], 0);
    while i < args.len()
        invariant
            i <= args@.len(),
            all == texts(args@),
            goal == grep_words(all, seq![], seq![], 0),
            goal == grep_words(all, choices(options@), texts(operands@), i as int),
        decreases args@.len() - i,
    {
        broadcast use lemma_texts_push;

        assert(all.len() == args@.len());
        assert(all[i as int] == args@[i as int]@);
        let a = args[i].as_str();
        let next = if args.len() - i > 1 {
            assert(all[i + 1] == args@[i + 1]@);
            Some(&args[i + 1])
        } else {
            None
        };
        if same(a, "--") {
            let mut rest = copy_texts(vstd::slice::slice_subrange(args, i + 1, args.len()));
            let ghost x = operands@;
            let ghost y = rest@;
            assert(texts(y) =~= all.subrange(i + 1, all.len() as int));
            operands.append(&mut rest);
            assert(texts(operands@) =~= texts(x) + texts(y));
            return Ok((options, operands));
        }
        if let Some(long) = strip_prefix(a, "--") {
            match read_long(long.as_str(), next, &mut options) {
                Ok(used) => if used {
                    i += 1;
                },
                Err(e) => return Err(e),
            }
        } else if starts_with(a, "-") && chars_of(a).len() > 1 {
            match read_cluster(a, next, &mut options) {
                Ok(used) => if used {
                    i += 1;
                },
                Err(e) => return Err(e),
            }
        } else {
            operands.push(copy_text(a));
        }
        i += 1;
    }
    assert(all.len() == args@.len());
    Ok((options, operands))
}

// ---------------------------------------------------------------------------
// What is asked for
// ---------------------------------------------------------------------------

/// How the search goes and what it prints.
#[derive(Clone, Copy)]
pub struct Manner {
    pub ignore_case: bool,
    pub invert: bool,
    pub count: bool,
    pub line_num: bool,
    pub files_with: bool,
    pub files_without: bool,
    pub only_match: bool,
    pub recursive: bool,
    pub extended: bool,
    pub fixed: bool,
    pub word: bool,
    pub line_regexp: bool,
    pub quiet: bool,
    pub suppress_errors: bool,
    pub text_mode: bool,
    pub filename_mode: Option<bool>,
    pub max_count: Option<usize>,
    pub before_context: usize,
    pub after_context: usize,
    pub explicit_pattern: bool,
}

/// What the options ask for.
pub struct GrepAsk {
    pub manner: Manner,
    pub only: Vec<String>,
    pub excludes: Vec<String>,
    pub exclude_dirs: Vec<String>,
    pub pattern_files: Vec<String>,
    pub patterns: Vec<String>,
}

/// What the options ask for.
#[verifier::ext_equal]
pub struct GrepWish {
    pub manner: Manner,
    pub only: Seq<Seq<char>>,
    pub excludes: Seq<Seq<char>>,
    pub exclude_dirs: Seq<Seq<char>>,
    pub pattern_files: Seq<Seq<char>>,
    pub patterns: Seq<Seq<char>>,
}

impl View for GrepAsk {
    type V = GrepWish;

    open spec fn view(&self) -> GrepWish {
        GrepWish {
            manner: self.manner,
            only: texts(self.only@),
            excludes: texts(self.excludes@),
            exclude_dirs: texts(self.exclude_dirs@),
            pattern_files: texts(self.pattern_files@),
            patterns: texts(self.patterns@),
        }
    }
}

/// How a command searches before any option is read.
pub open spec fn plain_manner(command: Seq<char>) -> Manner {
    Manner {
        ignore_case: false,
        invert: false,
        count: false,
        line_num: false,
        files_with: false,
        files_without: false,
        only_match: false,
        recursive: false,
        extended: command == "egrep"@,
        fixed: command == "fgrep"@,
        word: false,
        line_regexp: false,
        quiet: false,
        suppress_errors: false,
        text_mode: false,
        filename_mode: None,
        max_count: None,
        before_context: 0,
        after_context: 0,
        explicit_pattern: false,
    }
}

/// What is asked for before any option is read.
pub open spec fn plain_grep(command: Seq<char>) -> GrepWish {
    GrepWish {
        manner: plain_manner(command),
        only: seq![],
        excludes: seq![],
        exclude_dirs: seq![],
        pattern_files: seq![],
        patterns: seq![],
    }
}

/// How the search goes once an option without a value is read.
pub open spec fn with_flag(x: Manner, f: Flag) -> Manner {
    match f {
        Flag::IgnoreCase => Manner { ignore_case: true, ..x },
        Flag::Invert => Manner { invert: true, ..x },
        Flag::Count => Manner { count: true, ..x },
        Flag::LineNumber => Manner { line_num: true, ..x },
        Flag::FilesWith => Manner { files_with: true, ..x },
        Flag::FilesWithout => Manner { files_without: true, ..x },
        Flag::OnlyMatch => Manner { only_match: true, ..x },
        Flag::Recursive => Manner { recursive: true, ..x },
        Flag::Extended => Manner { extended: true, fixed: false, ..x },
        Flag::Fixed => Manner { fixed: true, ..x },
        Flag::Word => Manner { word: true, ..x },
        Flag::Line => Manner { line_regexp: true, ..x },
        Flag::Quiet => Manner { quiet: true, ..x },
        Flag::NoFilename => Manner { filename_mode: Some(false), ..x },
        Flag::WithFilename => Manner { filename_mode: Some(true), ..x },
        Flag::SuppressErrors => Manner { suppress_errors: true, ..x },
        Flag::Text => Manner { text_mode: true, ..x },
        Flag::Help => x,
    }
}

fn apply_flag(x: Manner, f: Flag) -> (r: Manner)
    ensures
        r == with_flag(x, f),
{
    match f {
        Flag::IgnoreCase => Manner { ignore_case: true, ..x },
        Flag::Invert => Manner { invert: true, ..x },
        Flag::Count => Manner { count: true, ..x },
        Flag::LineNumber => Manner { line_num: true, ..x },
        Flag::FilesWith => Manner { files_with: true, ..x },
        Flag::FilesWithout => Manner { files_without: true, ..x },
        Flag::OnlyMatch => Manner { only_match: true, ..x },
        Flag::Recursive => Manner { recursive: true, ..x },
        Flag::Extended => Manner { extended: true, fixed: false, ..x },
        Flag::Fixed => Manner { fixed: true, ..x },
        Flag::Word => Manner { word: true, ..x },
        Flag::Line => Manner { line_regexp: true, ..x },
        Flag::Quiet => Manner { quiet: true, ..x },
        Flag::NoFilename => Manner { filename_mode: Some(false), ..x },
        Flag::WithFilename => Manner { filename_mode: Some(true), ..x },
        Flag::SuppressErrors => Manner { suppress_errors: true, ..x },
        Flag::Text => Manner { text_mode: true, ..x },
        Flag::Help => x,
    }
}

/// How the search goes once an option with a number is read, or the complaint.
pub open spec fn with_number(x: Manner, k: Setting, value: Seq<char>) -> Result<Manner, Seq<char>> {
    match read_unsigned(value, usize::MAX as nat) {
        Some(n) => Ok(
            match k {
                Setting::MaxCount => Manner { max_count: Some(n as usize), ..x },
                Setting::BeforeContext => Manner { before_context: n as usize, ..x },
                Setting::AfterContext => Manner { after_context: n as usize, ..x },
                _ => Manner { before_context: n as usize, after_context: n as usize, ..x },
            },
        ),
        None => Err(
            match k {
                Setting::MaxCount => "invalid max count: "@ + value,
                _ => "invalid context length: "@ + value,
            },
        ),
    }
}

fn apply_number(x: Manner, k: Setting, value: &str) -> (r: Result<Manner, String>)
    ensures
        match r {
            Ok(y) => with_number(x, k, value@) == Ok::<Manner, Seq<char>>(y),
            Err(e) => with_number(x, k, value@) == Err::<Manner, Seq<char>>(e@),
        },
{
    match parse_usize(value) {
        Some(n) => Ok(
            match k {
                Setting::MaxCount => Manner { max_count: Some(n), ..x },
                Setting::BeforeContext => Manner { before_context: n, ..x },
                Setting::AfterContext => Manner { after_context: n, ..x },
                _ => Manner { before_context: n, after_context: n, ..x },
            },
        ),
        None => Err(
            match k {
                Setting::MaxCount => join2("invalid max count: ", value),
                _ => join2("invalid context length: ", value),
            },
        ),
    }
}

/// What is asked for once an option with a value is read, or the complaint about the value.
pub open spec fn with_value(x: GrepWish, k: Setting, value: Seq<char>) -> Result<GrepWish, Seq<char>> {
    match k {
        Setting::Regexp => Ok(
            GrepWish {
                manner: Manner { explicit_pattern: true, ..x.manner },
                patterns: x.patterns.push(value),
                ..x
            },
        ),
        Setting::PatternFile => Ok(
            GrepWish {
                manner: Manner { explicit_pattern: true, ..x.manner },
                pattern_files: x.pattern_files.push(value),
                ..x
            },
        ),
        Setting::Only => Ok(GrepWish { only: x.only.push(value), ..x }),
        Setting::Exclude => Ok(GrepWish { excludes: x.excludes.push(value), ..x }),
        Setting::ExcludeDir => Ok(GrepWish { exclude_dirs: x.exclude_dirs.push(value), ..x }),
        _ => match with_number(x.manner, k, value) {
            Ok(manner) => Ok(GrepWish { manner, ..x }),
            Err(e) => Err(e),
        },
    }
}

fn apply_value(x: &mut GrepAsk, k: Setting, value: &str) -> (r: Result<(), String>)
    ensures
        match r {
            Ok(()) => with_value(old(x)@, k, value@) == Ok::<GrepWish, Seq<char>>(final(x)@),
            Err(e) => with_value(old(x)@, k, value@) == Err::<GrepWish, Seq<char>>(e@),
        },
{
    let text = copy_text(value);
    proof {
        lemma_texts_push(x.patterns@, text);
        lemma_texts_push(x.pattern_files@, text);
        lemma_texts_push(x.only@, text);
        lemma_texts_push(x.excludes@, text);
        lemma_texts_push(x.exclude_dirs@, text);
    }
    match k {
        Setting::Regexp => {
            x.manner = Manner { explicit_pattern: true, ..x.manner };
            x.patterns.push(text);
        },
        Setting::PatternFile => {
            x.manner = Manner { explicit_pattern: true, ..x.manner };
            x.pattern_files.push(text);
        },
        Setting::Only => x.only.push(text),
        Setting::Exclude => x.excludes.push(text),
        Setting::ExcludeDir => x.exclude_dirs.push(text),
        _ => match apply_number(x.manner, k, value) {
            Ok(manner) => x.manner = manner,
            Err(e) => return Err(e),
        },
    }
    Ok(())
}

/// What is asked for once an option is read, or the complaint about its value.
pub open spec fn with_choice(x: GrepWish, c: Choice) -> Result<GrepWish, Seq<char>> {
    match c {
        Choice::Plain(f) => Ok(GrepWish { manner: with_flag(x.manner, f), ..x }),
        Choice::Color(mode) => match mode {
            Some(value) => if value == "never"@ {
                Ok(x)
            } else {
                Err("unsupported color mode '"@ + value + "'"@)
            },
            None => Err("unsupported color mode 'auto'"@),
        },
        Choice::Valued(k, value) => with_value(x, k, value),
    }
}

fn apply_choice(x: &mut GrepAsk, c: &Chosen) -> (r: Result<(), String>)
    ensures
        match r {
            Ok(()) => with_choice(old(x)@, c@) == Ok::<GrepWish, Seq<char>>(final(x)@),
            Err(e) => with_choice(old(x)@, c@) == Err::<GrepWish, Seq<char>>(e@),
        },
{
    match c {
        Chosen::Plain(f) => {
            x.manner = apply_flag(x.manner, *f);
            Ok(())
        },
        Chosen::Color(mode) => match mode {
            Some(value) => if same(value.as_str(), "never") {
                Ok(())
            } else {
                Err(join3("unsupported color mode '", value.as_str(), "'"))
            },
            None => Err(copy_text("unsupported color mode 'auto'")),
        },
        Chosen::Valued(k, value) => apply_value(x, *k, value.as_str()),
    }
}

/// What the options from `i` on ask for, with what was read before; or the complaint.
pub open spec fn with_choices(x: GrepWish, v: Seq<Choice>, i: int) -> Result<GrepWish, Seq<char>>
    decreases v.len() - i,
{
    if i < 0 || i >= v.len() {
        Ok(x)
    } else {
        match with_choice(x, v[i]) {
            Ok(y) => with_choices(y, v, i + 1),
            Err(e) => Err(e),
        }
    }
}

fn apply_choices(command: &str, v: &[Chosen]) -> (r: Result<GrepAsk, String>)
    ensures
        match r {
            Ok(x) => with_choices(plain_grep(command@), choices(v@), 0) == Ok::<
                GrepWish,
                Seq<char>,
            >(x@),
            Err(e) => with_choices(plain_grep(command@), choices(v@), 0) == Err::<
                GrepWish,
                Seq<char>,
            >(e@),
        },
{
    let ghost all = choices(v@);
    let mut x = GrepAsk {
        manner: Manner {
            ignore_case: false,
            invert: false,
            count: false,
            line_num: false,
            files_with: false,
            files_without: false,
            only_match: false,
            recursive: false,
            extended: same(command, "egrep"),
            fixed: same(command, "fgrep"),
            word: false,
            line_regexp: false,
            quiet: false,
            suppress_errors: false,
            text_mode: false,
            filename_mode: None,
            max_count: None,
            before_context: 0,
            after_context: 0,
            explicit_pattern: false,
        },
        only: Vec::new(),
        excludes: Vec::new(),
        exclude_dirs: Vec::new(),
        pattern_files: Vec::new(),
        patterns: Vec::new(),
    };
    assert(x@ =~= plain_grep(command@));
    let ghost goal = with_choices(plain_grep(command@), all, 0);
    let mut i: usize = 0;
    while i < v.len()
        invariant
            i <= v@.len(),
            all == choices(v@),
            goal == with_choices(plain_grep(command@), all, 0),
            goal == with_choices(x@, all, i as int),
        decreases v@.len() - i,
    {
        assert(all.len() == v@.len());
        assert(all[i as int] == v@[i as int]@);
        match apply_choice(&mut x, &v[i]) {
            Ok(()) => {},
            Err(e) => return Err(e),
        }
        i += 1;
    }
    assert(all.len() == v@.len());
    Ok(x)
}

// ---------------------------------------------------------------------------
// Patterns
// ---------------------------------------------------------------------------

/// A complaint of the command.
pub open spec fn grumbled(s: Screen, message: Seq<char>) -> Screen {
    complained(s, "grep: "@ + message + "\n"@)
}

fn grumble(io: &mut Io, message: &str)
    ensures
        final(io)@ == grumbled(old(io)@, message@),
{
    io.print_err(join3("grep: ", message, "\n").as_str());
}

/// The patterns with the lines of the files from `i` on; or what is said and the status.
pub open spec fn pattern_files_read(
    m: Machine,
    s: Screen,
    files: Seq<Seq<char>>,
    patterns: Seq<Seq<char>>,
    i: int,
) -> (Machine, Screen, Result<Seq<Seq<char>>, int>)
    decreases files.len() - i,
{
    if i < 0 || i >= files.len() {
        (m, s, Ok(patterns))
    } else {
        let path = resolved(m.cwd, files[i]);
        match bytes_at(m.files, path) {
            None => (m, grumbled(s, files[i] + ": "@ + unreadable(m, path)), Err(2)),
            Some(bytes) => {
                let (kept, m1) = reserved(m, bytes.len() as int);
                let (enough, m2) = charged(m1, bytes.len() as int);
                if !kept {
                    (m1, s, Err(STOPPED as int))
                } else if !enough {
                    (m2, s, Err(STOPPED as int))
                } else if !valid_utf8(bytes) {
                    (m2, grumbled(s, files[i] + ": pattern file is not valid UTF-8"@), Err(2))
                } else {
                    pattern_files_read(
                        m2,
                        s,
                        files,
                        patterns + line_list(decode_utf8(bytes)),
                        i + 1,
                    )
                }
            },
        }
    }
}

/// What reading patterns gave.
pub open spec fn patterns_of(r: Result<Vec<String>, i32>) -> Result<Seq<Seq<char>>, int> {
    match r {
        Ok(v) => Ok(texts(v@)),
        Err(e) => Err(e as int),
    }
}

fn read_pattern_files(system: &mut System, files: &[String], first: Vec<String>, io: &mut Io) -> (r: Result<
    Vec<String>,
    i32,
>)
    ensures
        (final(system)@, final(io)@, patterns_of(r)) == pattern_files_read(
            old(system)@,
            old(io)@,
            texts(files@),
            texts(first@),
            0,
        ),
{
    let ghost all = texts(files@);
    let mut patterns = first;
    let mut i: usize = 0;
    let ghost goal = pattern_files_read(system@, io@, all, texts(first@), 0);
    while i < files.len()
        invariant
            i <= files@.len(),
            all == texts(files@),
            goal == pattern_files_read(old(system)@, old(io)@, all, texts(first@), 0),
            goal == pattern_files_read(system@, io@, all, texts(patterns@), i as int),
        decreases files@.len() - i,
    {
        assert(all.len() == files@.len());
        assert(all[i as int] == files@[i as int]@);
        let name = files[i].as_str();
        let path = resolve_against(system.cwd().as_str(), name);
        let bytes = match system.read_file(path.as_str()) {
            Some(b) => b,
            None => {
                let why = describe_unreadable(system, path.as_str());
                grumble(io, join3(name, ": ", why.as_str()).as_str());
                return Err(2);
            },
        };
        if !system.reserve_memory(bytes.len() as u64) {
            return Err(STOPPED);
        }
        if !system.charge_cpu(bytes.len() as u64) {
            return Err(STOPPED);
        }
        let content = match decode(bytes.as_slice()) {
            Some(t) => t,
            None => {
                grumble(io, join2(name, ": pattern file is not valid UTF-8").as_str());
                return Err(2);
            },
        };
        let mut more = lines(content.as_str());
        let ghost a = patterns@;
        let ghost b = more@;
        patterns.append(&mut more);
        assert(texts(patterns@) =~= texts(a) + texts(b));
        i += 1;
    }
    assert(all.len() == files@.len());
    Ok(patterns)
}

/// Patterns that are plain texts, as expressions.
pub open spec fn escaped_all(v: Seq<Seq<char>>) -> Seq<Seq<char>> {
    v.map_values(|p: Seq<char>| escaped(p))
}

/// Patterns as expressions that can stand side by side, from `i` on; or the complaint.
pub open spec fn grouped(v: Seq<Seq<char>>, basic: bool, out: Seq<Seq<char>>, i: int) -> Result<
    Seq<Seq<char>>,
    Seq<char>,
>
    decreases v.len() - i,
{
    if i < 0 || i >= v.len() {
        Ok(out)
    } else if basic {
        match extended(v[i]) {
            Ok(p) => grouped(v, basic, out.push("(?:"@ + p + ")"@), i + 1),
            Err(e) => Err(e),
        }
    } else {
        grouped(v, basic, out.push("(?:"@ + v[i] + ")"@), i + 1)
    }
}

/// The expression that finds any of the patterns, or the complaint.
pub open spec fn whole_expression(x: Manner, patterns: Seq<Seq<char>>) -> Result<Seq<char>, Seq<char>> {
    let any = if patterns.len() == 0 {
        Ok("[^\\s\\S]"@)
    } else if x.fixed {
        Ok(joined(escaped_all(patterns), "|"@))
    } else {
        match grouped(patterns, !x.extended, seq![], 0) {
            Ok(v) => Ok(joined(v, "|"@)),
            Err(e) => Err(e),
        }
    };
    match any {
        Ok(p) => {
            let bounded = if x.word {
                "\\b(?:"@ + p + ")\\b"@
            } else {
                p
            };
            Ok(
                if x.line_regexp {
                    "^(?:"@ + bounded + ")$"@
                } else {
                    bounded
                },
            )
        },
        Err(e) => Err(e),
    }
}

fn escape_all(v: &[String]) -> (r: Vec<String>)
    ensures
        texts(r@) == escaped_all(texts(v@)),
{
    let ghost all = texts(v@);
    let mut out: Vec<String> = Vec::new();
    let mut i: usize = 0;
    while i < v.len()
        invariant
            i <= v@.len(),
            all == texts(v@),
            texts(out@) == escaped_all(all.take(i as int)),
        decreases v@.len() - i,
    {
        broadcast use lemma_texts_push;

        assert(all.take(i + 1) =~= all.take(i as int).push(v@[i as int]@));
        out.push(escape(v[i].as_str()));
        assert(texts(out@) =~= escaped_all(all.take(i + 1)));
        i += 1;
    }
    assert(all.take(i as int) =~= all);
    out
}

fn group_all(v: &[String], basic: bool) -> (r: Result<Vec<String>, String>)
    ensures
        match r {
            Ok(out) => grouped(texts(v@), basic, seq![], 0) == Ok::<Seq<Seq<char>>, Seq<char>>(
                texts(out@),
            ),
            Err(e) => grouped(texts(v@), basic, seq![], 0) == Err::<Seq<Seq<char>>, Seq<char>>(
                e@,
            ),
        },
{
    let ghost all = texts(v@);
    let mut out: Vec<String> = Vec::new();
    let mut i: usize = 0;
    assert(texts(out@) =~= seq![]);
    let ghost goal = grouped(all, basic, seq![], 0);
    while i < v.len()
        invariant
            i <= v@.len(),
            all == texts(v@),
            goal == grouped(all, basic, seq![], 0),
            goal == grouped(all, basic, texts(out@), i as int),
        decreases v@.len() - i,
    {
        broadcast use lemma_texts_push;

        assert(all.len() == v@.len());
        assert(all[i as int] == v@[i as int]@);
        if basic {
            match basic_to_extended(v[i].as_str()) {
                Ok(p) => out.push(join3("(?:", p.as_str(), ")")),
                Err(e) => return Err(e),
            }
        } else {
            out.push(join3("(?:", v[i].as_str(), ")"));
        }
        i += 1;
    }
    assert(all.len() == v@.len());
    Ok(out)
}

/// The expression that finds any of the patterns.
pub fn build_whole(x: Manner, patterns: &[String]) -> (r: Result<String, String>)
    ensures
        match r {
            Ok(p) => whole_expression(x, texts(patterns@)) == Ok::<Seq<char>, Seq<char>>(p@),
            Err(e) => whole_expression(x, texts(patterns@)) == Err::<Seq<char>, Seq<char>>(e@),
        },
{
    assert(texts(patterns@).len() == patterns@.len());
    let any = if patterns.len() == 0 {
        copy_text("[^\\s\\S]")
    } else if x.fixed {
        join(escape_all(patterns).as_slice(), "|")
    } else {
        match group_all(patterns, !x.extended) {
            Ok(v) => join(v.as_slice(), "|"),
            Err(e) => return Err(e),
        }
    };
    let bounded = if x.word {
        join3("\\b(?:", any.as_str(), ")\\b")
    } else {
        any
    };
    Ok(
        if x.line_regexp {
            join3("^(?:", bounded.as_str(), ")$")
        } else {
            bounded
        },
    )
}

// ---------------------------------------------------------------------------
// Inputs
// ---------------------------------------------------------------------------

/// Whether some pattern matches a path or its last part.
pub open spec fn some_glob(patterns: Seq<Seq<char>>, path: Seq<char>) -> bool {
    exists|i: int|
        0 <= i < patterns.len() && (wildcard(#[trigger] patterns[i], path) || wildcard(
            patterns[i],
            base_name(path),
        ))
}

/// Whether some pattern matches a part of a path.
pub open spec fn some_part(patterns: Seq<Seq<char>>, parts: Seq<Seq<char>>) -> bool {
    exists|i: int, k: int|
        0 <= i < patterns.len() && 0 <= k < parts.len() && wildcard(
            #[trigger] patterns[i],
            #[trigger] parts[k],
        )
}

/// Whether a path is searched.
pub open spec fn path_selected(
    path: Seq<char>,
    only: Seq<Seq<char>>,
    excludes: Seq<Seq<char>>,
    exclude_dirs: Seq<Seq<char>>,
) -> bool {
    &&& only.len() == 0 || some_glob(only, path)
    &&& !some_glob(excludes, path)
    &&& !some_part(exclude_dirs, pieces(path, '/'))
}

fn any_glob(patterns: &[String], path: &str) -> (r: bool)
    ensures
        r == some_glob(texts(patterns@), path@),
{
    let ghost all = texts(patterns@);
    let last = basename(path);
    let mut i: usize = 0;
    while i < patterns.len()
        invariant
            i <= patterns@.len(),
            all == texts(patterns@),
            last@ == base_name(path@),
            forall|k: int|
                0 <= k < i ==> !(wildcard(#[trigger] all[k], path@) || wildcard(all[k], last@)),
        decreases patterns@.len() - i,
    {
        assert(all.len() == patterns@.len());
        assert(all[i as int] == patterns@[i as int]@);
        if glob_eq(patterns[i].as_str(), path) || glob_eq(patterns[i].as_str(), last.as_str()) {
            return true;
        }
        i += 1;
    }
    assert(all.len() == patterns@.len());
    false
}

fn matches_part(pattern: &str, parts: &[String]) -> (r: bool)
    ensures
        r == exists|k: int|
            0 <= k < texts(parts@).len() && wildcard(pattern@, #[trigger] texts(parts@)[k]),
{
    let ghost all = texts(parts@);
    let mut k: usize = 0;
    while k < parts.len()
        invariant
            k <= parts@.len(),
            all == texts(parts@),
            forall|j: int| 0 <= j < k ==> !wildcard(pattern@, #[trigger] all[j]),
        decreases parts@.len() - k,
    {
        assert(all.len() == parts@.len());
        assert(all[k as int] == parts@[k as int]@);
        if glob_eq(pattern, parts[k].as_str()) {
            return true;
        }
        k += 1;
    }
    assert(all.len() == parts@.len());
    false
}

fn any_part(patterns: &[String], parts: &[String]) -> (r: bool)
    ensures
        r == some_part(texts(patterns@), texts(parts@)),
{
    let ghost all = texts(patterns@);
    let ghost words = texts(parts@);
    let mut i: usize = 0;
    while i < patterns.len()
        invariant
            i <= patterns@.len(),
            all == texts(patterns@),
            words == texts(parts@),
            forall|j: int, k: int|
                0 <= j < i && 0 <= k < words.len() ==> !wildcard(
                    #[trigger] all[j],
                    #[trigger] words[k],
                ),
        decreases patterns@.len() - i,
    {
        assert(all.len() == patterns@.len());
        assert(all[i as int] == patterns@[i as int]@);
        if matches_part(patterns[i].as_str(), parts) {
            proof {
                let k = choose|k: int|
                    0 <= k < words.len() && wildcard(all[i as int], #[trigger] words[k]);
                assert(wildcard(all[i as int], words[k]));
                assert(some_part(all, words));
            }
            return true;
        }
        i += 1;
    }
    assert(all.len() == patterns@.len());
    false
}

/// Whether a path is searched.
pub fn grep_path_selected(path: &str, only: &[String], excludes: &[String], exclude_dirs: &[String]) -> (r:
    bool)
    ensures
        r == path_selected(path@, texts(only@), texts(excludes@), texts(exclude_dirs@)),
{
    assert(texts(only@).len() == only@.len());
    if only.len() > 0 && !any_glob(only, path) {
        return false;
    }
    if any_glob(excludes, path) {
        return false;
    }
    !any_part(exclude_dirs, split(path, '/').as_slice())
}

/// Something that is searched, with the name under which it is reported.
pub struct Input {
    pub label: String,
    pub data: Vec<u8>,
}

/// What a list of inputs holds.
pub open spec fn inputs_of(v: Seq<Input>) -> Seq<(Seq<char>, Seq<u8>)> {
    v.map_values(|x: Input| (x.label@, x.data@))
}

proof fn lemma_inputs_push(v: Seq<Input>, x: Input)
    ensures
        inputs_of(v.push(x)) == inputs_of(v).push((x.label@, x.data@)),
{
    assert(inputs_of(v.push(x)) =~= inputs_of(v).push((x.label@, x.data@)));
}

/// The inputs with the files among paths from `i` on.
pub open spec fn files_added(
    m: Machine,
    x: GrepWish,
    v: Seq<(Seq<char>, Seq<u8>)>,
    paths: Seq<Seq<char>>,
    i: int,
) -> Seq<(Seq<char>, Seq<u8>)>
    decreases paths.len() - i,
{
    if i < 0 || i >= paths.len() {
        v
    } else {
        match lookup(m.files, paths[i]) {
            Some(Thing::File { bytes, .. }) => if path_selected(
                paths[i],
                x.only,
                x.excludes,
                x.exclude_dirs,
            ) {
                files_added(m, x, v.push((paths[i], bytes)), paths, i + 1)
            } else {
                files_added(m, x, v, paths, i + 1)
            },
            _ => files_added(m, x, v, paths, i + 1),
        }
    }
}

fn add_files(system: &System, x: &GrepAsk, v: &mut Vec<Input>, paths: &[String])
    ensures
        inputs_of(final(v)@) == files_added(
            system@,
            x@,
            inputs_of(old(v)@),
            texts(paths@),
            0,
        ),
{
    let ghost all = texts(paths@);
    let mut i: usize = 0;
    let ghost goal = files_added(system@, x@, inputs_of(v@), all, 0);
    while i < paths.len()
        invariant
            i <= paths@.len(),
            all == texts(paths@),
            goal == files_added(system@, x@, inputs_of(old(v)@), all, 0),
            goal == files_added(system@, x@, inputs_of(v@), all, i as int),
        decreases paths@.len() - i,
    {
        assert(all.len() == paths@.len());
        assert(all[i as int] == paths@[i as int]@);
        if let Some(Node::File { bytes, .. }) = system.node(paths[i].as_str()) {
            if grep_path_selected(
                paths[i].as_str(),
                x.only.as_slice(),
                x.excludes.as_slice(),
                x.exclude_dirs.as_slice(),
            ) {
                let input = Input {
                    label: copy_text(paths[i].as_str()),
                    data: copy_bytes(bytes.as_slice()),
                };
                let ghost was = v@;
                let ghost g = input;
                v.push(input);
                proof {
                    lemma_inputs_push(was, g);
                }
            }
        }
        i += 1;
    }
    assert(all.len() == paths@.len());
}

/// The inputs that operands from `i` on name, what is said, and whether something was wrong.
pub open spec fn inputs_read(
    m: Machine,
    s: Screen,
    x: GrepWish,
    files: Seq<Seq<char>>,
    v: Seq<(Seq<char>, Seq<u8>)>,
    wrong: bool,
    i: int,
) -> (Screen, Seq<(Seq<char>, Seq<u8>)>, bool)
    decreases files.len() - i,
{
    if i < 0 || i >= files.len() {
        (s, v, wrong)
    } else {
        let path = resolved(m.cwd, files[i]);
        if x.manner.recursive {
            if lookup(m.files, path) is Some {
                inputs_read(
                    m,
                    s,
                    x,
                    files,
                    files_added(m, x, v, paths_inside(m.files, path), 0),
                    wrong,
                    i + 1,
                )
            } else {
                inputs_read(
                    m,
                    if x.manner.suppress_errors {
                        s
                    } else {
                        grumbled(s, unreadable(m, path))
                    },
                    x,
                    files,
                    v,
                    true,
                    i + 1,
                )
            }
        } else if !path_selected(files[i], x.only, x.excludes, seq![]) {
            inputs_read(m, s, x, files, v, wrong, i + 1)
        } else {
            match bytes_at(m.files, path) {
                Some(bytes) => inputs_read(m, s, x, files, v.push((files[i], bytes)), wrong, i + 1),
                None => inputs_read(
                    m,
                    if x.manner.suppress_errors {
                        s
                    } else {
                        grumbled(s, files[i] + ": "@ + unreadable(m, path))
                    },
                    x,
                    files,
                    v,
                    true,
                    i + 1,
                ),
            }
        }
    }
}

fn read_inputs(system: &System, x: &GrepAsk, files: &[String], io: &mut Io) -> (r: (Vec<Input>, bool))
    ensures
        (final(io)@, inputs_of(r.0@), r.1) == inputs_read(
            system@,
            old(io)@,
            x@,
            texts(files@),
            seq![],
            false,
            0,
        ),
{
    let ghost all = texts(files@);
    let mut v: Vec<Input> = Vec::new();
    let none: Vec<String> = Vec::new();
    let mut wrong = false;
    let mut i: usize = 0;
    assert(inputs_of(v@) =~= seq![]);
    assert(texts(none@) =~= seq![]);
    let ghost goal = inputs_read(system@, io@, x@, all, seq![], false, 0);
    while i < files.len()
        invariant
            i <= files@.len(),
            all == texts(files@),
            texts(none@) == Seq::<Seq<char>>::empty(),
            goal == inputs_read(system@, old(io)@, x@, all, seq![], false, 0),
            goal == inputs_read(system@, io@, x@, all, inputs_of(v@), wrong, i as int),
        decreases files@.len() - i,
    {
        assert(all.len() == files@.len());
        assert(all[i as int] == files@[i as int]@);
        let name = files[i].as_str();
        let path = resolve_against(system.cwd().as_str(), name);
        if x.manner.recursive {
            match system.walk(path.as_str()) {
                Some(paths) => add_files(system, x, &mut v, paths.as_slice()),
                None => {
                    if !x.manner.suppress_errors {
                        grumble(io, describe_unreadable(system, path.as_str()).as_str());
                    }
                    wrong = true;
                },
            }
        } else if grep_path_selected(name, x.only.as_slice(), x.excludes.as_slice(), none.as_slice()) {
            match system.read_file(path.as_str()) {
                Some(data) => {
                    let input = Input { label: copy_text(name), data };
                    let ghost was = v@;
                    let ghost g = input;
                    v.push(input);
                    proof {
                        lemma_inputs_push(was, g);
                    }
                },
                None => {
                    if !x.manner.suppress_errors {
                        let why = describe_unreadable(system, path.as_str());
                        grumble(io, join3(name, ": ", why.as_str()).as_str());
                    }
                    wrong = true;
                },
            }
        }
        i += 1;
    }
    assert(all.len() == files@.len());
    (v, wrong)
}

// ---------------------------------------------------------------------------
// One input
// ---------------------------------------------------------------------------

/// What precedes a line: the label where several inputs are searched, and the number of the line.
pub open spec fn line_head(x: Manner, multi: bool, label: Seq<char>, mark: Seq<char>, number: nat) -> Seq<char> {
    (if multi && label.len() > 0 {
        label + mark
    } else {
        ""@
    }) + (if x.line_num {
        decimal(number) + mark
    } else {
        ""@
    })
}

fn write_head(x: Manner, multi: bool, label: &str, mark: &str, number: usize) -> (r: String)
    ensures
        r@ == line_head(x, multi, label@, mark@, number as nat),
{
    let mut out = if multi && !label.is_empty() {
        join2(label, mark)
    } else {
        copy_text("")
    };
    if x.line_num {
        out.append(join2(format_usize(number).as_str(), mark).as_str());
    } else {
        out.append("");
    }
    out
}

/// The pieces of a line, each on a line of its own behind the head.
pub open spec fn piece_lines(head: Seq<char>, v: Seq<Seq<char>>) -> Seq<char>
    decreases v.len(),
{
    if v.len() == 0 {
        ""@
    } else {
        piece_lines(head, v.drop_last()) + (head + v.last() + "\n"@)
    }
}

fn write_pieces(head: &str, v: &[String]) -> (r: String)
    ensures
        r@ == piece_lines(head@, texts(v@)),
{
    let ghost all = texts(v@);
    let mut out = copy_text("");
    let mut i: usize = 0;
    while i < v.len()
        invariant
            i <= v@.len(),
            all == texts(v@),
            out@ == piece_lines(head@, all.take(i as int)),
        decreases v@.len() - i,
    {
        assert(all.take(i + 1).drop_last() =~= all.take(i as int));
        assert(all.take(i + 1).last() == v@[i as int]@);
        out.append(join3(head, v[i].as_str(), "\n").as_str());
        i += 1;
    }
    assert(all.take(i as int) =~= all);
    out
}

/// What the expression finds in the lines of an input: whether it is found in each of them and,
/// where only the finds are printed, which pieces of it.
#[verifier::ext_equal]
pub struct Finds {
    pub hits: Seq<bool>,
    pub pieces: Seq<Seq<Seq<char>>>,
}

/// Whether only what is found is printed.
pub open spec fn only_finds(x: Manner) -> bool {
    x.only_match && !x.invert
}

/// The lines of an input from `i` on: what is printed of them, and how many are selected, with what
/// came before. The scan ends where enough lines are selected.
pub open spec fn scanned(
    x: Manner,
    multi: bool,
    label: Seq<char>,
    lines: Seq<Seq<char>>,
    f: Finds,
    out: Seq<char>,
    n: nat,
    i: int,
) -> (Seq<char>, nat)
    decreases lines.len() - i,
{
    if i < 0 || i >= lines.len() || x.max_count == Some(0usize) {
        (out, n)
    } else if f.hits[i] == x.invert {
        scanned(x, multi, label, lines, f, out, n, i + 1)
    } else {
        let head = line_head(x, multi, label, ":"@, (i + 1) as nat);
        let more = if x.count || x.files_with || x.files_without {
            ""@
        } else if only_finds(x) {
            piece_lines(head, f.pieces[i])
        } else {
            head + lines[i] + "\n"@
        };
        if x.files_with || (x.max_count matches Some(limit) && n + 1 >= limit) {
            (out + more, n + 1)
        } else {
            scanned(x, multi, label, lines, f, out + more, n + 1, i + 1)
        }
    }
}

/// What is printed of an input, whether a line of it is selected, and whether the input itself is.
pub open spec fn input_report(x: Manner, multi: bool, label: Seq<char>, lines: Seq<Seq<char>>, f: Finds) -> (
    Seq<char>,
    bool,
    bool,
) {
    let (out, n) = scanned(x, multi, label, lines, f, ""@, 0, 0);
    let listed = (x.files_with && n > 0) || (x.files_without && n == 0);
    (
        out + (if x.count {
            if multi && label.len() > 0 {
                label + ":"@ + decimal(n) + "\n"@
            } else {
                decimal(n) + "\n"@
            }
        } else {
            ""@
        }) + (if x.files_with && n > 0 {
            label + "\n"@
        } else {
            ""@
        }) + (if x.files_without && n == 0 {
            label + "\n"@
        } else {
            ""@
        }),
        n > 0,
        listed || (!x.files_with && !x.files_without && n > 0),
    )
}

/// What a list of lists of texts holds.
pub open spec fn text_lists(v: Seq<Vec<String>>) -> Seq<Seq<Seq<char>>> {
    v.map_values(|x: Vec<String>| texts(x@))
}

fn scan_lines(
    x: Manner,
    multi: bool,
    label: &str,
    lines: &[String],
    hits: &[bool],
    pieces: &[Vec<String>],
) -> (r: (String, usize))
    requires
        hits@.len() == lines@.len(),
        only_finds(x) ==> pieces@.len() == lines@.len(),
    ensures
        (r.0@, r.1 as nat) == scanned(
            x,
            multi,
            label@,
            texts(lines@),
            (Finds { hits: hits@, pieces: text_lists(pieces@) }),
            ""@,
            0,
            0,
        ),
{
    let ghost all = texts(lines@);
    let ghost f = Finds { hits: hits@, pieces: text_lists(pieces@) };
    let ghost goal = scanned(x, multi, label@, all, f, ""@, 0, 0);
    let mut out = copy_text("");
    let mut n: usize = 0;
    let mut i: usize = 0;
    let nothing = match x.max_count {
        Some(limit) => limit == 0,
        None => false,
    };
    assert(nothing == (x.max_count == Some(0usize)));
    if nothing {
        return (out, 0);
    }
    while i < lines.len()
        invariant
            i <= lines@.len(),
            lines@.len() == lines.len(),
            n <= i,
            all == texts(lines@),
            f == (Finds { hits: hits@, pieces: text_lists(pieces@) }),
            hits@.len() == lines@.len(),
            only_finds(x) ==> pieces@.len() == lines@.len(),
            x.max_count != Some(0usize),
            goal == scanned(x, multi, label@, all, f, ""@, 0, 0),
            goal == scanned(x, multi, label@, all, f, out@, n as nat, i as int),
        decreases lines@.len() - i,
    {
        assert(all.len() == lines@.len());
        assert(all[i as int] == lines@[i as int]@);
        if hits[i] != x.invert {
            let head = write_head(x, multi, label, ":", i + 1);
            let more = if x.count || x.files_with || x.files_without {
                copy_text("")
            } else if x.only_match && !x.invert {
                assert(f.pieces[i as int] == texts(pieces@[i as int]@));
                write_pieces(head.as_str(), pieces[i].as_slice())
            } else {
                join3(head.as_str(), lines[i].as_str(), "\n")
            };
            out.append(more.as_str());
            n += 1;
            let enough = x.files_with || match x.max_count {
                Some(limit) => n >= limit,
                None => false,
            };
            if enough {
                return (out, n);
            }
        }
        i += 1;
    }
    assert(all.len() == lines@.len());
    (out, n)
}

/// Reports on an input, given what the expression finds in its lines.
pub fn report_input(
    x: Manner,
    multi: bool,
    label: &str,
    lines: &[String],
    hits: &[bool],
    pieces: &[Vec<String>],
) -> (r: (String, bool, bool))
    requires
        hits@.len() == lines@.len(),
        only_finds(x) ==> pieces@.len() == lines@.len(),
    ensures
        (r.0@, r.1, r.2) == input_report(
            x,
            multi,
            label@,
            texts(lines@),
            (Finds { hits: hits@, pieces: text_lists(pieces@) }),
        ),
{
    let (mut out, n) = scan_lines(x, multi, label, lines, hits, pieces);
    if x.count {
        let number = format_usize(n);
        if multi && !label.is_empty() {
            out.append(join4(label, ":", number.as_str(), "\n").as_str());
        } else {
            out.append(join2(number.as_str(), "\n").as_str());
        }
    } else {
        out.append("");
    }
    if x.files_with && n > 0 {
        out.append(join2(label, "\n").as_str());
    } else {
        out.append("");
    }
    if x.files_without && n == 0 {
        out.append(join2(label, "\n").as_str());
    } else {
        out.append("");
    }
    let listed = (x.files_with && n > 0) || (x.files_without && n == 0);
    (out, n > 0, listed || (!x.files_with && !x.files_without && n > 0))
}

// ---------------------------------------------------------------------------
// Context
// ---------------------------------------------------------------------------

/// How many of the flags are set.
pub open spec fn set_count(v: Seq<bool>) -> nat
    decreases v.len(),
{
    if v.len() == 0 {
        0
    } else if v.last() {
        set_count(v.drop_last()) + 1
    } else {
        set_count(v.drop_last())
    }
}

/// Of each of the first `n` lines, whether it is selected; no more than the limit are.
pub open spec fn limited(hits: Seq<bool>, invert: bool, limit: Option<usize>, n: int) -> Seq<bool>
    decreases n,
{
    if n <= 0 {
        seq![]
    } else {
        let v = limited(hits, invert, limit, n - 1);
        v.push(hits[n - 1] != invert && (limit matches Some(most) ==> set_count(v) < most))
    }
}

fn limit_hits(hits: &[bool], invert: bool, limit: Option<usize>) -> (r: (Vec<bool>, usize))
    ensures
        r.0@ == limited(hits@, invert, limit, hits@.len() as int),
        r.1 == set_count(r.0@),
{
    let mut v: Vec<bool> = Vec::new();
    let mut n: usize = 0;
    let mut i: usize = 0;
    while i < hits.len()
        invariant
            i <= hits@.len(),
            n <= i,
            v@ == limited(hits@, invert, limit, i as int),
            n == set_count(v@),
        decreases hits@.len() - i,
    {
        let open = match limit {
            Some(most) => n < most,
            None => true,
        };
        let hit = hits[i] != invert && open;
        let ghost was = v@;
        v.push(hit);
        assert(v@.drop_last() =~= was);
        if hit {
            n += 1;
        }
        i += 1;
    }
    (v, n)
}

/// The lines from `k` to before `end` with their heads. A selected line is marked by a colon, one
/// beside it by a dash.
pub open spec fn context_lines(
    x: Manner,
    multi: bool,
    label: Seq<char>,
    lines: Seq<Seq<char>>,
    chosen: Seq<bool>,
    from: int,
    end: int,
) -> Seq<char>
    decreases end - from,
{
    if end <= from {
        ""@
    } else {
        context_lines(x, multi, label, lines, chosen, from, end - 1) + (line_head(
            x,
            multi,
            label,
            if chosen[end - 1] {
                ":"@
            } else {
                "-"@
            },
            end as nat,
        ) + lines[end - 1] + "\n"@)
    }
}

/// What is printed for the selected lines from `i` on with the lines beside them, none twice; a
/// line of dashes parts what is not adjacent. `printed_to` is the end of what was printed before.
pub open spec fn context_from(
    x: Manner,
    multi: bool,
    label: Seq<char>,
    lines: Seq<Seq<char>>,
    chosen: Seq<bool>,
    printed_to: Option<int>,
    out: Seq<char>,
    i: int,
) -> Seq<char>
    decreases lines.len() - i,
{
    if i < 0 || i >= lines.len() {
        out
    } else if !chosen[i] {
        context_from(x, multi, label, lines, chosen, printed_to, out, i + 1)
    } else {
        let start = if i < x.before_context {
            0
        } else {
            i - x.before_context
        };
        let end = if i + x.after_context + 1 < lines.len() {
            i + x.after_context + 1
        } else {
            lines.len() as int
        };
        let first = match printed_to {
            Some(p) => if start < p {
                p
            } else {
                start
            },
            None => start,
        };
        if first >= end {
            context_from(x, multi, label, lines, chosen, printed_to, out, i + 1)
        } else {
            context_from(
                x,
                multi,
                label,
                lines,
                chosen,
                Some(end),
                out + (if printed_to matches Some(p) && first > p {
                    "--\n"@
                } else {
                    ""@
                }) + context_lines(x, multi, label, lines, chosen, first, end),
                i + 1,
            )
        }
    }
}

/// What is printed of an input with context, and how many lines are selected.
pub open spec fn context_report(
    x: Manner,
    multi: bool,
    label: Seq<char>,
    lines: Seq<Seq<char>>,
    hits: Seq<bool>,
) -> (Seq<char>, nat) {
    let chosen = limited(hits, x.invert, x.max_count, lines.len() as int);
    (context_from(x, multi, label, lines, chosen, None, ""@, 0), set_count(chosen))
}

fn write_context(
    x: Manner,
    multi: bool,
    label: &str,
    lines: &[String],
    chosen: &[bool],
    from: usize,
    end: usize,
) -> (r: String)
    requires
        chosen@.len() == lines@.len(),
        from <= end <= lines@.len(),
    ensures
        r@ == context_lines(
            x,
            multi,
            label@,
            texts(lines@),
            chosen@,
            from as int,
            end as int,
        ),
{
    let ghost all = texts(lines@);
    let mut out = copy_text("");
    let mut k: usize = from;
    while k < end
        invariant
            from <= k <= end,
            end <= lines@.len(),
            lines@.len() == lines.len(),
            chosen@.len() == lines@.len(),
            all == texts(lines@),
            out@ == context_lines(x, multi, label@, all, chosen@, from as int, k as int),
        decreases end - k,
    {
        assert(all[k as int] == lines@[k as int]@);
        let head = write_head(
            x,
            multi,
            label,
            if chosen[k] {
                ":"
            } else {
                "-"
            },
            k + 1,
        );
        out.append(join3(head.as_str(), lines[k].as_str(), "\n").as_str());
        k += 1;
    }
    out
}

/// Reports on an input with context, given the lines in which the expression was found.
pub fn grep_context(x: Manner, multi: bool, label: &str, lines: &[String], hits: &[bool]) -> (r: (
    String,
    usize,
))
    requires
        hits@.len() == lines@.len(),
    ensures
        (r.0@, r.1 as nat) == context_report(x, multi, label@, texts(lines@), hits@),
{
    let ghost all = texts(lines@);
    let (chosen, n) = limit_hits(hits, x.invert, x.max_count);
    proof {
        lemma_limited_length(hits@, x.invert, x.max_count, hits@.len() as int);
    }
    assert(all.len() == lines@.len());
    let ghost goal = context_from(x, multi, label@, all, chosen@, None, ""@, 0);
    let total: usize = lines.len();
    let mut out = copy_text("");
    let mut printed_to: Option<usize> = None;
    let mut i: usize = 0;
    while i < lines.len()
        invariant
            i <= lines@.len(),
            total == lines@.len(),
            lines@.len() == lines.len(),
            all == texts(lines@),
            all.len() == lines@.len(),
            chosen@.len() == lines@.len(),
            printed_to matches Some(p) ==> p <= lines@.len(),
            goal == context_from(
                x,
                multi,
                label@,
                all,
                chosen@,
                match printed_to {
                    Some(p) => Some(p as int),
                    None => None,
                },
                out@,
                i as int,
            ),
        decreases lines@.len() - i,
    {
        if chosen[i] {
            let start: usize = if i < x.before_context {
                0
            } else {
                i - x.before_context
            };
            let end: usize = if x.after_context < total - i - 1 {
                i + x.after_context + 1
            } else {
                total
            };
            let first: usize = match printed_to {
                Some(p) => if start < p {
                    p
                } else {
                    start
                },
                None => start,
            };
            if first < end {
                let apart = match printed_to {
                    Some(p) => first > p,
                    None => false,
                };
                out.append(if apart {
                    "--\n"
                } else {
                    ""
                });
                out.append(
                    write_context(
                        x,
                        multi,
                        label,
                        lines,
                        chosen.as_slice(),
                        first,
                        end,
                    ).as_str(),
                );
                printed_to = Some(end);
            }
        }
        i += 1;
    }
    (out, n)
}

proof fn lemma_limited_length(hits: Seq<bool>, invert: bool, limit: Option<usize>, n: int)
    requires
        0 <= n,
    ensures
        limited(hits, invert, limit, n).len() == n,
    decreases n,
{
    if n > 0 {
        lemma_limited_length(hits, invert, limit, n - 1);
    }
}

/// No more lines are selected than the limit says, and only lines in which the expression is found
/// or, where that is asked for, is not.
pub proof fn lemma_limited(hits: Seq<bool>, invert: bool, limit: Option<usize>, n: int)
    requires
        0 <= n <= hits.len(),
    ensures
        limited(hits, invert, limit, n).len() == n,
        limit matches Some(most) ==> set_count(limited(hits, invert, limit, n)) <= most,
        forall|k: int|
            0 <= k < n && #[trigger] limited(hits, invert, limit, n)[k] ==> hits[k] != invert,
    decreases n,
{
    lemma_limited_length(hits, invert, limit, n);
    if n > 0 {
        lemma_limited(hits, invert, limit, n - 1);
        lemma_limited_length(hits, invert, limit, n - 1);
        let v = limited(hits, invert, limit, n - 1);
        let w = limited(hits, invert, limit, n);
        assert(w.drop_last() =~= v);
        assert forall|k: int| 0 <= k < n && #[trigger] w[k] implies hits[k] != invert by {
            if k < n - 1 {
                assert(v[k] == w[k]);
            }
        }
    }
}

// ---------------------------------------------------------------------------
// All inputs
// ---------------------------------------------------------------------------

/// What the expression finds in lines.
pub open spec fn finds_of(x: Manner, pattern: Seq<char>, lines: Seq<Seq<char>>) -> Finds {
    Finds {
        hits: hits_of(pattern, x.ignore_case, lines),
        pieces: if only_finds(x) {
            lines.map_values(|line: Seq<char>| regex_pieces(pattern, x.ignore_case, line))
        } else {
            seq![]
        },
    }
}

fn find_pieces(pattern: &str, ignore_case: bool, lines: &[String]) -> (r: Vec<Vec<String>>)
    requires
        regex_refusal(pattern@, ignore_case) is None,
    ensures
        text_lists(r@) == texts(lines@).map_values(
            |line: Seq<char>| regex_pieces(pattern@, ignore_case, line),
        ),
{
    let ghost all = texts(lines@);
    let ghost f = |line: Seq<char>| regex_pieces(pattern@, ignore_case, line);
    let mut v: Vec<Vec<String>> = Vec::new();
    let mut i: usize = 0;
    assert(text_lists(v@) =~= all.take(0).map_values(f));
    while i < lines.len()
        invariant
            i <= lines@.len(),
            all == texts(lines@),
            f == |line: Seq<char>| regex_pieces(pattern@, ignore_case, line),
            regex_refusal(pattern@, ignore_case) is None,
            text_lists(v@) == all.take(i as int).map_values(f),
        decreases lines@.len() - i,
    {
        assert(all.take(i + 1) =~= all.take(i as int).push(lines@[i as int]@));
        let found = pattern_pieces(pattern, ignore_case, lines[i].as_str());
        let ghost was = v@;
        let ghost g = found;
        v.push(found);
        assert(text_lists(v@) =~= text_lists(was).push(texts(g@)));
        assert(all.take(i + 1).map_values(f) =~= all.take(i as int).map_values(f).push(
            f(lines@[i as int]@),
        ));
        i += 1;
    }
    assert(all.take(i as int) =~= all);
    v
}

/// The status of a search: two where something was wrong, zero where something was found.
pub open spec fn search_status(x: Manner, any: bool, selected: bool, wrong: bool) -> int {
    if wrong {
        2
    } else if x.files_without {
        if selected {
            0
        } else {
            1
        }
    } else if any || selected {
        0
    } else {
        1
    }
}

/// Whether lines are printed with context.
pub open spec fn with_context(x: Manner) -> bool {
    x.before_context != 0 || x.after_context != 0
}

/// Searching the inputs from `i` on. A quiet search ends with the first line that is selected.
pub open spec fn inputs_searched(
    m: Machine,
    s: Screen,
    x: Manner,
    multi: bool,
    pattern: Seq<char>,
    v: Seq<(Seq<char>, Seq<u8>)>,
    any: bool,
    selected: bool,
    wrong: bool,
    i: int,
) -> Done
    decreases v.len() - i,
{
    if i < 0 || i >= v.len() {
        Done { m, s, status: search_status(x, any, selected, wrong) }
    } else {
        let (label, data) = v[i];
        let (enough, n) = charged(m, data.len() as int);
        if !enough {
            Done { m: n, s, status: STOPPED as int }
        } else if !x.text_mode && data.contains(0u8) {
            let t = if x.suppress_errors {
                s
            } else {
                grumbled(s, label + ": binary input is not supported; use -a"@)
            };
            inputs_searched(n, t, x, multi, pattern, v, any, selected, true, i + 1)
        } else if !valid_utf8(data) {
            let t = if x.suppress_errors {
                s
            } else {
                grumbled(s, label + ": input is not valid UTF-8"@)
            };
            inputs_searched(n, t, x, multi, pattern, v, any, selected, true, i + 1)
        } else {
            let lines = line_list(decode_utf8(data));
            if with_context(x) {
                let (out, count) = context_report(
                    x,
                    multi,
                    label,
                    lines,
                    hits_of(pattern, x.ignore_case, lines),
                );
                inputs_searched(
                    n,
                    printed(s, out),
                    x,
                    multi,
                    pattern,
                    v,
                    any || count > 0,
                    selected || count > 0,
                    wrong,
                    i + 1,
                )
            } else {
                let (out, hit, chosen) = input_report(
                    x,
                    multi,
                    label,
                    lines,
                    finds_of(x, pattern, lines),
                );
                if x.quiet && hit {
                    Done { m: n, s, status: 0 }
                } else {
                    inputs_searched(
                        n,
                        printed(s, out),
                        x,
                        multi,
                        pattern,
                        v,
                        any || hit,
                        selected || chosen,
                        wrong,
                        i + 1,
                    )
                }
            }
        }
    }
}

fn holds_zero(data: &[u8]) -> (r: bool)
    ensures
        r == data@.contains(0u8),
{
    let mut i: usize = 0;
    while i < data.len()
        invariant
            i <= data@.len(),
            forall|k: int| 0 <= k < i ==> data@[k] != 0,
        decreases data@.len() - i,
    {
        if data[i] == 0 {
            return true;
        }
        i += 1;
    }
    false
}

fn search_text(x: Manner, multi: bool, pattern: &str, label: &str, text: &str) -> (r: (String, bool, bool))
    requires
        regex_refusal(pattern@, x.ignore_case) is None,
    ensures
        (r.0@, r.1, r.2) == (if with_context(x) {
            let (out, count) = context_report(
                x,
                multi,
                label@,
                line_list(text@),
                hits_of(pattern@, x.ignore_case, line_list(text@)),
            );
            (out, count > 0, count > 0)
        } else {
            input_report(
                x,
                multi,
                label@,
                line_list(text@),
                finds_of(x, pattern@, line_list(text@)),
            )
        }),
{
    let all = lines(text);
    assert(texts(all@).len() == all@.len());
    let hits = find_hits(pattern, x.ignore_case, all.as_slice());
    if x.before_context != 0 || x.after_context != 0 {
        let (out, count) = grep_context(x, multi, label, all.as_slice(), hits.as_slice());
        return (out, count > 0, count > 0);
    }
    let pieces = if x.only_match && !x.invert {
        find_pieces(pattern, x.ignore_case, all.as_slice())
    } else {
        let none: Vec<Vec<String>> = Vec::new();
        assert(text_lists(none@) =~= seq![]);
        none
    };
    assert(text_lists(pieces@).len() == pieces@.len());
    assert((Finds { hits: hits@, pieces: text_lists(pieces@) }) =~= finds_of(
        x,
        pattern@,
        line_list(text@),
    ));
    report_input(x, multi, label, all.as_slice(), hits.as_slice(), pieces.as_slice())
}

fn search_inputs(
    system: &mut System,
    x: Manner,
    multi: bool,
    pattern: &str,
    v: &[Input],
    trouble: bool,
    io: &mut Io,
) -> (r: i32)
    requires
        regex_refusal(pattern@, x.ignore_case) is None,
    ensures
        done(final(system)@, final(io)@, r) == inputs_searched(
            old(system)@,
            old(io)@,
            x,
            multi,
            pattern@,
            inputs_of(v@),
            false,
            false,
            trouble,
            0,
        ),
{
    let ghost all = inputs_of(v@);
    let mut any = false;
    let mut selected = false;
    let mut wrong = trouble;
    let mut i: usize = 0;
    let ghost goal = inputs_searched(
        system@,
        io@,
        x,
        multi,
        pattern@,
        all,
        false,
        false,
        trouble,
        0,
    );
    while i < v.len()
        invariant
            i <= v@.len(),
            all == inputs_of(v@),
            regex_refusal(pattern@, x.ignore_case) is None,
            goal == inputs_searched(
                old(system)@,
                old(io)@,
                x,
                multi,
                pattern@,
                all,
                false,
                false,
                trouble,
                0,
            ),
            goal == inputs_searched(
                system@,
                io@,
                x,
                multi,
                pattern@,
                all,
                any,
                selected,
                wrong,
                i as int,
            ),
        decreases v@.len() - i,
    {
        assert(all.len() == v@.len());
        assert(all[i as int] == (v@[i as int].label@, v@[i as int].data@));
        let label = v[i].label.as_str();
        let data = v[i].data.as_slice();
        if !system.charge_cpu(data.len() as u64) {
            return STOPPED;
        }
        if !x.text_mode && holds_zero(data) {
            if !x.suppress_errors {
                grumble(io, join2(label, ": binary input is not supported; use -a").as_str());
            }
            wrong = true;
        } else {
            match decode(data) {
                None => {
                    if !x.suppress_errors {
                        grumble(io, join2(label, ": input is not valid UTF-8").as_str());
                    }
                    wrong = true;
                },
                Some(text) => {
                    let (out, hit, chosen) = search_text(x, multi, pattern, label, text.as_str());
                    let context = x.before_context != 0 || x.after_context != 0;
                    if !context && x.quiet && hit {
                        return 0;
                    }
                    io.print(out.as_str());
                    any = any || hit;
                    selected = selected || chosen;
                },
            }
        }
        i += 1;
    }
    assert(all.len() == v@.len());
    if wrong {
        2
    } else if x.files_without {
        if selected {
            0
        } else {
            1
        }
    } else if any || selected {
        0
    } else {
        1
    }
}

// ---------------------------------------------------------------------------
// The command
// ---------------------------------------------------------------------------

/// Whether context is asked for together with something that leaves no room for it.
pub open spec fn context_refused(x: Manner) -> bool {
    with_context(x) && (x.count || x.files_with || x.files_without || x.only_match || x.quiet)
}

/// Whether the label is printed with each line.
pub open spec fn labelled(x: Manner, inputs: nat) -> bool {
    match x.filename_mode {
        Some(b) => b,
        None => inputs > 1 || x.recursive,
    }
}

/// Searching for an expression in what the operands name, or in standard input.
pub open spec fn operands_searched(
    m: Machine,
    s: Screen,
    x: GrepWish,
    pattern: Seq<char>,
    files: Seq<Seq<char>>,
) -> Done {
    if files.len() == 0 {
        inputs_searched(
            m,
            Screen { stdin: seq![], ..s },
            x.manner,
            labelled(x.manner, 1),
            pattern,
            seq![(""@, s.stdin)],
            false,
            false,
            false,
            0,
        )
    } else {
        let (t, v, wrong) = inputs_read(m, s, x, files, seq![], false, 0);
        inputs_searched(
            m,
            t,
            x.manner,
            labelled(x.manner, v.len()),
            pattern,
            v,
            false,
            false,
            wrong,
            0,
        )
    }
}

/// A search that is refused with a message.
pub open spec fn refused(m: Machine, s: Screen, message: Seq<char>) -> Done {
    Done { m, s: grumbled(s, message), status: 2 }
}

/// Searching for patterns, once those of files are read.
pub open spec fn patterns_searched(
    m: Machine,
    s: Screen,
    x: GrepWish,
    patterns: Seq<Seq<char>>,
    operands: Seq<Seq<char>>,
) -> Done {
    if context_refused(x.manner) {
        refused(
            m,
            s,
            "context cannot be combined with count, file-list, only-match, or quiet modes"@,
        )
    } else {
        let taken = !x.manner.explicit_pattern && operands.len() > 0;
        let all = if taken {
            patterns.push(operands[0])
        } else {
            patterns
        };
        let files = if taken {
            operands.subrange(1, operands.len() as int)
        } else {
            operands
        };
        if all.len() == 0 && !x.manner.explicit_pattern {
            refused(m, s, "no pattern"@)
        } else {
            match whole_expression(x.manner, all) {
                Err(e) => refused(m, s, "unsupported regular expression: "@ + e),
                Ok(pattern) => match regex_refusal(pattern, x.manner.ignore_case) {
                    Some(e) => refused(m, s, "invalid regular expression: "@ + e),
                    None => operands_searched(m, s, x, pattern, files),
                },
            }
        }
    }
}

/// A search with its options and operands.
pub open spec fn options_searched(
    m: Machine,
    s: Screen,
    command: Seq<char>,
    v: Seq<Choice>,
    operands: Seq<Seq<char>>,
) -> Done {
    match with_choices(plain_grep(command), v, 0) {
        Err(e) => refused(m, s, e),
        Ok(x) => match pattern_files_read(m, s, x.pattern_files, x.patterns, 0) {
            (n, t, Err(status)) => Done { m: n, s: t, status },
            (n, t, Ok(patterns)) => patterns_searched(n, t, x, patterns, operands),
        },
    }
}

fn search_patterns(
    system: &mut System,
    x: &GrepAsk,
    patterns: Vec<String>,
    operands: &[String],
    io: &mut Io,
) -> (r: i32)
    ensures
        done(final(system)@, final(io)@, r) == patterns_searched(
            old(system)@,
            old(io)@,
            x@,
            texts(patterns@),
            texts(operands@),
        ),
{
    broadcast use lemma_texts_push;

    let y = x.manner;
    if (y.before_context != 0 || y.after_context != 0) && (y.count || y.files_with || y.files_without
        || y.only_match || y.quiet) {
        grumble(
            io,
            "context cannot be combined with count, file-list, only-match, or quiet modes",
        );
        return 2;
    }
    let ghost ops = texts(operands@);
    assert(ops.len() == operands@.len());
    let mut all = patterns;
    let mut from: usize = 0;
    if !y.explicit_pattern && operands.len() > 0 {
        assert(ops[0] == operands@[0]@);
        all.push(copy_text(operands[0].as_str()));
        from = 1;
    }
    let files = vstd::slice::slice_subrange(operands, from, operands.len());
    assert(texts(files@) =~= ops.subrange(from as int, ops.len() as int));
    assert(from == 0 ==> texts(files@) =~= ops);
    assert(texts(all@).len() == all@.len());
    if all.len() == 0 && !y.explicit_pattern {
        grumble(io, "no pattern");
        return 2;
    }
    let pattern = match build_whole(y, all.as_slice()) {
        Ok(p) => p,
        Err(e) => {
            grumble(io, join2("unsupported regular expression: ", e.as_str()).as_str());
            return 2;
        },
    };
    if let Some(e) = pattern_error(pattern.as_str(), y.ignore_case) {
        grumble(io, join2("invalid regular expression: ", e.as_str()).as_str());
        return 2;
    }
    assert(texts(files@).len() == files@.len());
    if files.len() == 0 {
        let mut v: Vec<Input> = Vec::new();
        let input = Input { label: copy_text(""), data: copy_bytes(io.stdin.as_slice()) };
        let ghost g = input;
        v.push(input);
        assert(inputs_of(v@) =~= seq![(""@, io@.stdin)]);
        io.stdin = Vec::new();
        let multi = match y.filename_mode {
            Some(b) => b,
            None => y.recursive,
        };
        search_inputs(system, y, multi, pattern.as_str(), v.as_slice(), false, io)
    } else {
        let (v, wrong) = read_inputs(system, x, files, io);
        assert(inputs_of(v@).len() == v@.len());
        let multi = match y.filename_mode {
            Some(b) => b,
            None => v.len() > 1 || y.recursive,
        };
        search_inputs(system, y, multi, pattern.as_str(), v.as_slice(), wrong, io)
    }
}

/// Searches as options and operands say. The command sets what patterns are by default.
pub fn grep_options(system: &mut System, command: &str, v: &[Chosen], operands: &[String], io: &mut Io) -> (r:
    i32)
    ensures
        done(final(system)@, final(io)@, r) == options_searched(
            old(system)@,
            old(io)@,
            command@,
            choices(v@),
            texts(operands@),
        ),
{
    let x = match apply_choices(command, v) {
        Ok(x) => x,
        Err(e) => {
            grumble(io, e.as_str());
            return 2;
        },
    };
    let first = copy_texts(x.patterns.as_slice());
    let patterns = match read_pattern_files(system, x.pattern_files.as_slice(), first, io) {
        Ok(v) => v,
        Err(status) => return status,
    };
    search_patterns(system, &x, patterns, operands, io)
}

/// The help text.
pub open spec fn help_text() -> Seq<char> {
    "usage: grep [OPTIONS] PATTERN [FILE...]\nsupported: -E -F -i -v -c -n -l -L -o -r -w -x -q -h -H -s -e -f -m -A -B -C\n"@
}

/// Whether help is asked for.
pub open spec fn asks_help(v: Seq<Choice>) -> bool {
    exists|i: int| 0 <= i < v.len() && #[trigger] v[i] == Choice::Plain(Flag::Help)
}

fn is_help_asked(v: &[Chosen]) -> (r: bool)
    ensures
        r == asks_help(choices(v@)),
{
    let ghost all = choices(v@);
    let mut i: usize = 0;
    while i < v.len()
        invariant
            i <= v@.len(),
            all == choices(v@),
            forall|k: int| 0 <= k < i ==> #[trigger] all[k] != Choice::Plain(Flag::Help),
        decreases v@.len() - i,
    {
        assert(all.len() == v@.len());
        assert(all[i as int] == v@[i as int]@);
        if let Chosen::Plain(Flag::Help) = &v[i] {
            return true;
        }
        i += 1;
    }
    assert(all.len() == v@.len());
    false
}

/// What `grep` does. Memory that was set aside is given back at the end.
pub open spec fn grep_run(m: Machine, s: Screen, command: Seq<char>, args: Seq<Seq<char>>) -> Done {
    match grep_words(args, seq![], seq![], 0) {
        Err(e) => refused(m, s, e),
        Ok((v, operands)) => if asks_help(v) {
            Done { m, s: printed(s, help_text()), status: 0 }
        } else {
            let d = options_searched(m, s, command, v, operands);
            Done { m: Machine { memory_used: m.memory_used, ..d.m }, ..d }
        },
    }
}

/// `grep` under the name of a command, which sets what patterns are by default.
pub fn grep_impl(system: &mut System, command: &str, args: &[String], io: &mut Io) -> (r: i32)
    ensures
        done(final(system)@, final(io)@, r) == grep_run(
            old(system)@,
            old(io)@,
            command@,
            texts(args@),
        ),
{
    let (v, operands) = match read_grep(args) {
        Ok(x) => x,
        Err(e) => {
            grumble(io, e.as_str());
            return 2;
        },
    };
    if is_help_asked(v.as_slice()) {
        io.print(
            "usage: grep [OPTIONS] PATTERN [FILE...]\nsupported: -E -F -i -v -c -n -l -L -o -r -w -x -q -h -H -s -e -f -m -A -B -C\n",
        );
        return 0;
    }
    let mark = system.memory_mark();
    let status = grep_options(system, command, v.as_slice(), operands.as_slice(), io);
    system.restore_memory(mark);
    status
}

/// `grep`.
pub fn cmd_grep(system: &mut System, args: &[String], io: &mut Io) -> (r: i32)
    ensures
        done(final(system)@, final(io)@, r) == grep_run(
            old(system)@,
            old(io)@,
            "grep"@,
            texts(args@),
        ),
{
    grep_impl(system, "grep", args, io)
}

/// `egrep`: patterns are extended expressions.
pub fn cmd_egrep(system: &mut System, args: &[String], io: &mut Io) -> (r: i32)
    ensures
        done(final(system)@, final(io)@, r) == grep_run(
            old(system)@,
            old(io)@,
            "egrep"@,
            texts(args@),
        ),
{
    grep_impl(system, "egrep", args, io)
}

/// `fgrep`: patterns are plain texts.
pub fn cmd_fgrep(system: &mut System, args: &[String], io: &mut Io) -> (r: i32)
    ensures
        done(final(system)@, final(io)@, r) == grep_run(
            old(system)@,
            old(io)@,
            "fgrep"@,
            texts(args@),
        ),
{
    grep_impl(system, "fgrep", args, io)
}

/// A search leaves files alone, and leaves as much memory in use as there was before.
pub proof fn lemma_grep_only_reads(m: Machine, s: Screen, command: Seq<char>, args: Seq<Seq<char>>)
    ensures
        grep_run(m, s, command, args).m.files == m.files,
        grep_run(m, s, command, args).m.memory_used == m.memory_used,
{
    match grep_words(args, seq![], seq![], 0) {
        Err(_) => {},
        Ok((v, operands)) => match with_choices(plain_grep(command), v, 0) {
            Err(_) => {},
            Ok(x) => {
                lemma_pattern_files_only_read(m, s, x.pattern_files, x.patterns, 0);
                match pattern_files_read(m, s, x.pattern_files, x.patterns, 0) {
                    (_, _, Err(_)) => {},
                    (n, t, Ok(patterns)) => lemma_patterns_only_read(n, t, x, patterns, operands),
                }
            },
        },
    }
}

proof fn lemma_pattern_files_only_read(
    m: Machine,
    s: Screen,
    files: Seq<Seq<char>>,
    patterns: Seq<Seq<char>>,
    i: int,
)
    ensures
        pattern_files_read(m, s, files, patterns, i).0.files == m.files,
    decreases files.len() - i,
{
    if 0 <= i < files.len() {
        if let Some(bytes) = bytes_at(m.files, resolved(m.cwd, files[i])) {
            let m1 = reserved(m, bytes.len() as int).1;
            let m2 = charged(m1, bytes.len() as int).1;
            lemma_pattern_files_only_read(
                m2,
                s,
                files,
                patterns + line_list(decode_utf8(bytes)),
                i + 1,
            );
        }
    }
}

proof fn lemma_patterns_only_read(
    m: Machine,
    s: Screen,
    x: GrepWish,
    patterns: Seq<Seq<char>>,
    operands: Seq<Seq<char>>,
)
    ensures
        patterns_searched(m, s, x, patterns, operands).m.files == m.files,
{
    let taken = !x.manner.explicit_pattern && operands.len() > 0;
    let all = if taken {
        patterns.push(operands[0])
    } else {
        patterns
    };
    let files = if taken {
        operands.subrange(1, operands.len() as int)
    } else {
        operands
    };
    if let Ok(pattern) = whole_expression(x.manner, all) {
        if files.len() == 0 {
            lemma_inputs_only_read(
                m,
                Screen { stdin: seq![], ..s },
                x.manner,
                labelled(x.manner, 1),
                pattern,
                seq![(""@, s.stdin)],
                false,
                false,
                false,
                0,
            );
        } else {
            let (t, v, wrong) = inputs_read(m, s, x, files, seq![], false, 0);
            lemma_inputs_only_read(
                m,
                t,
                x.manner,
                labelled(x.manner, v.len()),
                pattern,
                v,
                false,
                false,
                wrong,
                0,
            );
        }
    }
}

proof fn lemma_inputs_only_read(
    m: Machine,
    s: Screen,
    x: Manner,
    multi: bool,
    pattern: Seq<char>,
    v: Seq<(Seq<char>, Seq<u8>)>,
    any: bool,
    selected: bool,
    wrong: bool,
    i: int,
)
    ensures
        inputs_searched(m, s, x, multi, pattern, v, any, selected, wrong, i).m.files == m.files,
    decreases v.len() - i,
{
    if 0 <= i < v.len() {
        let (label, data) = v[i];
        let n = charged(m, data.len() as int).1;
        let lines = line_list(decode_utf8(data));
        let t1 = if x.suppress_errors {
            s
        } else {
            grumbled(s, label + ": binary input is not supported; use -a"@)
        };
        let t2 = if x.suppress_errors {
            s
        } else {
            grumbled(s, label + ": input is not valid UTF-8"@)
        };
        let (out, count) = context_report(
            x,
            multi,
            label,
            lines,
            hits_of(pattern, x.ignore_case, lines),
        );
        let (text, hit, chosen) = input_report(x, multi, label, lines, finds_of(x, pattern, lines));
        lemma_inputs_only_read(n, t1, x, multi, pattern, v, any, selected, true, i + 1);
        lemma_inputs_only_read(n, t2, x, multi, pattern, v, any, selected, true, i + 1);
        lemma_inputs_only_read(
            n,
            printed(s, out),
            x,
            multi,
            pattern,
            v,
            any || count > 0,
            selected || count > 0,
            wrong,
            i + 1,
        );
        lemma_inputs_only_read(
            n,
            printed(s, text),
            x,
            multi,
            pattern,
            v,
            any || hit,
            selected || chosen,
            wrong,
            i + 1,
        );
    }
}

/// `grep -F` with one text selects exactly the lines that hold it.
pub proof fn lemma_fixed_grep(x: Manner, pattern: Seq<char>, lines: Seq<Seq<char>>)
    requires
        x.fixed,
        !x.word,
        !x.line_regexp,
        !x.ignore_case,
    ensures
        whole_expression(x, seq![pattern]) == Ok::<Seq<char>, Seq<char>>(escaped(pattern)),
        hits_of(escaped(pattern), x.ignore_case, lines) == lines.map_values(
            |line: Seq<char>| holds(line, pattern),
        ),
{
    let v = escaped_all(seq![pattern]);
    assert(v =~= seq![escaped(pattern)]);
    assert(v.drop_last() =~= seq![]);
    assert(joined(v, "|"@) =~= escaped(pattern));
    assert forall|i: int| 0 <= i < lines.len() implies #[trigger] hits_of(
        escaped(pattern),
        false,
        lines,
    )[i] == holds(lines[i], pattern) by {
        lemma_plain_text_is_found(pattern, lines[i]);
    }
    assert(hits_of(escaped(pattern), false, lines) =~= lines.map_values(
        |line: Seq<char>| holds(line, pattern),
    ));
}

} // verus!
