//! `git grep`: searching what is tracked.

use vstd::prelude::*;

use crate::bytes::{decode_lossy, loose_text};
use crate::common::{
    commit_tree_or_empty, covered, done, index_or_empty, load_index_or_empty, names_a_path, path_named, pathspecs,
    pathspecs_of, selected, tree_or_empty,
};
use crate::console::{failed, fatal, misused, no_repo, printed, repo_error, usage, Done, Io, Screen};
use crate::diff::{binary, is_binary};
use crate::flags::{expand_clusters, expanded};
use crate::numbers::{decimal, format_usize};
use crate::patterns::{
    escape, escaped, find_hits, hits_of, lemma_plain_text_is_found, pattern_error, regex_refusal,
};
use crate::repo::{blob_of, find_repo_root, opt_bytes, read_blob, relative, relative_path, repo_root};
use crate::revisions::{resolve_revision, revision};
use crate::system::{charged, Machine, System, STOPPED};
use crate::text::{
    after_prefix, copy_text, holds, join2, join3, join4, lemma_texts_push, line_list, lines, opt_text, same, starts,
    starts_with, strip_prefix, texts,
};
use crate::trees::{Files, Tree};
use crate::worktree::{read_work_file, work_content};

verus! {

/// The most files that are searched.
pub const MAX_GREP_FILES: usize = 10_000;

/// How `git grep` reports what it finds.
#[derive(Clone, Copy)]
pub struct Style {
    pub line_numbers: bool,
    pub names_only: bool,
    pub count_only: bool,
    pub invert: bool,
    pub without_match: bool,
}

/// What the arguments of `git grep` ask for.
pub struct SearchAsk {
    pub style: Style,
    pub ignore_case: bool,
    pub fixed: bool,
    pub word: bool,
    pub pattern: Option<String>,
    pub paths: Vec<String>,
    /// How many paths were given before the separator.
    pub before_separator: Option<usize>,
}

/// What is asked of `git grep`.
#[verifier::ext_equal]
pub struct SearchWish {
    pub style: Style,
    pub ignore_case: bool,
    pub fixed: bool,
    pub word: bool,
    pub pattern: Option<Seq<char>>,
    pub paths: Seq<Seq<char>>,
    pub before_separator: Option<nat>,
}

impl View for SearchAsk {
    type V = SearchWish;

    open spec fn view(&self) -> SearchWish {
        SearchWish {
            style: self.style,
            ignore_case: self.ignore_case,
            fixed: self.fixed,
            word: self.word,
            pattern: opt_text(self.pattern),
            paths: texts(self.paths@),
            before_separator: match self.before_separator {
                Some(n) => Some(n as nat),
                None => None,
            },
        }
    }
}

/// What is asked for before any argument is read.
pub open spec fn plain_search() -> SearchWish {
    SearchWish {
        style: Style {
            line_numbers: false,
            names_only: false,
            count_only: false,
            invert: false,
            without_match: false,
        },
        ignore_case: false,
        fixed: false,
        word: false,
        pattern: None,
        paths: seq![],
        before_separator: None,
    }
}

/// What is asked for once an option without a value is read. Nothing where there is no such option.
pub open spec fn search_option(x: SearchWish, a: Seq<char>) -> Option<SearchWish> {
    if a == "-n"@ || a == "--line-number"@ {
        Some(SearchWish { style: Style { line_numbers: true, ..x.style }, ..x })
    } else if a == "-i"@ || a == "--ignore-case"@ {
        Some(SearchWish { ignore_case: true, ..x })
    } else if a == "-l"@ || a == "--files-with-matches"@ || a == "--name-only"@ {
        Some(SearchWish { style: Style { names_only: true, ..x.style }, ..x })
    } else if a == "-c"@ || a == "--count"@ {
        Some(SearchWish { style: Style { count_only: true, ..x.style }, ..x })
    } else if a == "-F"@ || a == "--fixed-strings"@ {
        Some(SearchWish { fixed: true, ..x })
    } else if a == "-w"@ || a == "--word-regexp"@ {
        Some(SearchWish { word: true, ..x })
    } else if a == "-L"@ || a == "--files-without-match"@ {
        Some(SearchWish { style: Style { names_only: true, without_match: true, ..x.style }, ..x })
    } else if a == "-v"@ || a == "--invert-match"@ {
        Some(SearchWish { style: Style { invert: true, ..x.style }, ..x })
    } else if a == "-E"@ || a == "--extended-regexp"@ || a == "-I"@ || a == "--no-color"@ || a
        == "--cached"@ {
        Some(x)
    } else {
        None
    }
}

impl SearchAsk {
    fn mark(&mut self, a: &str) -> (r: bool)
        ensures
            r ==> search_option(old(self)@, a@) == Some(final(self)@),
            !r ==> search_option(old(self)@, a@) is None && final(self)@ == old(self)@,
    {
        if same(a, "-n") || same(a, "--line-number") {
            self.style.line_numbers = true;
        } else if same(a, "-i") || same(a, "--ignore-case") {
            self.ignore_case = true;
        } else if same(a, "-l") || same(a, "--files-with-matches") || same(a, "--name-only") {
            self.style.names_only = true;
        } else if same(a, "-c") || same(a, "--count") {
            self.style.count_only = true;
        } else if same(a, "-F") || same(a, "--fixed-strings") {
            self.fixed = true;
        } else if same(a, "-w") || same(a, "--word-regexp") {
            self.word = true;
        } else if same(a, "-L") || same(a, "--files-without-match") {
            self.style.names_only = true;
            self.style.without_match = true;
        } else if same(a, "-v") || same(a, "--invert-match") {
            self.style.invert = true;
        } else if !same(a, "-E") && !same(a, "--extended-regexp") && !same(a, "-I") && !same(
            a,
            "--no-color",
        ) && !same(a, "--cached") {
            return false;
        }
        true
    }
}

/// What the arguments from `i` on ask for, with what was read before; or the option that is
/// unknown.
pub open spec fn search_words(args: Seq<Seq<char>>, x: SearchWish, operands_only: bool, i: int) -> Result<
    SearchWish,
    Seq<char>,
>
    decreases args.len() - i,
{
    if i < 0 || i >= args.len() {
        Ok(x)
    } else {
        let a = args[i];
        if operands_only {
            search_words(args, SearchWish { paths: x.paths.push(a), ..x }, true, i + 1)
        } else if a == "--"@ {
            search_words(
                args,
                SearchWish { before_separator: Some(x.paths.len()), ..x },
                true,
                i + 1,
            )
        } else if a == "-e"@ {
            if i + 1 < args.len() {
                search_words(args, SearchWish { pattern: Some(args[i + 1]), ..x }, false, i + 2)
            } else {
                Ok(SearchWish { pattern: None, ..x })
            }
        } else {
            match search_option(x, a) {
                Some(y) => search_words(args, y, false, i + 1),
                None => if starts(a, "-"@) {
                    Err(a)
                } else if x.pattern is None {
                    search_words(args, SearchWish { pattern: Some(a), ..x }, false, i + 1)
                } else {
                    search_words(args, SearchWish { paths: x.paths.push(a), ..x }, false, i + 1)
                },
            }
        }
    }
}

fn read_search(args: &[String]) -> (r: Result<SearchAsk, String>)
    ensures
        match r {
            Ok(x) => search_words(texts(args@), plain_search(), false, 0) == Ok::<
                SearchWish,
                Seq<char>,
            >(x@),
            Err(e) => search_words(texts(args@), plain_search(), false, 0) == Err::<
                SearchWish,
                Seq<char>,
            >(e@),
        },
{
    let ghost all = texts(args@);
    let mut x = SearchAsk {
        style: Style {
            line_numbers: false,
            names_only: false,
            count_only: false,
            invert: false,
            without_match: false,
        },
        ignore_case: false,
        fixed: false,
        word: false,
        pattern: None,
        paths: Vec::new(),
        before_separator: None,
    };
    let mut operands_only = false;
    let mut i: usize = 0;
    assert(x@ =~= plain_search());
    let ghost goal = search_words(all, plain_search(), false, 0);
    while i < args.len()
        invariant
            i <= args@.len(),
            all == texts(args@),
            goal == search_words(all, plain_search(), false, 0),
            goal == search_words(all, x@, operands_only, i as int),
        decreases args@.len() - i,
    {
        broadcast use lemma_texts_push;

        assert(all.len() == args@.len());
        assert(all[i as int] == args@[i as int]@);
        assert(texts(x.paths@).len() == x.paths@.len());
        let a = args[i].as_str();
        if operands_only {
            x.paths.push(copy_text(a));
        } else if same(a, "--") {
            x.before_separator = Some(x.paths.len());
            operands_only = true;
        } else if same(a, "-e") {
            if args.len() - i > 1 {
                assert(all[i + 1] == args@[i + 1]@);
                x.pattern = Some(copy_text(args[i + 1].as_str()));
                i += 1;
            } else {
                x.pattern = None;
                return Ok(x);
            }
        } else if !x.mark(a) {
            if starts_with(a, "-") {
                return Err(copy_text(a));
            }
            if x.pattern.is_none() {
                x.pattern = Some(copy_text(a));
            } else {
                x.paths.push(copy_text(a));
            }
        }
        i += 1;
    }
    assert(all.len() == args@.len());
    Ok(x)
}

/// The expression that is searched for.
pub open spec fn expression(pattern: Seq<char>, fixed: bool, word: bool) -> Seq<char> {
    let plain = if fixed {
        escaped(pattern)
    } else {
        pattern
    };
    if word {
        "\\b(?:"@ + plain + ")\\b"@
    } else {
        plain
    }
}

fn build_expression(pattern: &str, fixed: bool, word: bool) -> (r: String)
    ensures
        r@ == expression(pattern@, fixed, word),
{
    let plain = if fixed {
        escape(pattern)
    } else {
        copy_text(pattern)
    };
    if word {
        join3("\\b(?:", plain.as_str(), ")\\b")
    } else {
        plain
    }
}

// ---------------------------------------------------------------------------
// One file
// ---------------------------------------------------------------------------

/// How many of the first `n` lines count: those in which the pattern is found or, where that is
/// asked for, is not.
pub open spec fn counted(hits: Seq<bool>, invert: bool, n: int) -> nat
    decreases n,
{
    if n <= 0 {
        0
    } else if hits[n - 1] != invert {
        counted(hits, invert, n - 1) + 1
    } else {
        counted(hits, invert, n - 1)
    }
}

/// The first `n` lines of a file as they are reported.
pub open spec fn hit_lines(x: Style, shown: Seq<char>, lines: Seq<Seq<char>>, hits: Seq<bool>, n: int) -> Seq<char>
    decreases n,
{
    if n <= 0 {
        ""@
    } else if hits[n - 1] != x.invert {
        hit_lines(x, shown, lines, hits, n - 1) + (if x.line_numbers {
            shown + ":"@ + decimal(n as nat) + ":"@ + lines[n - 1] + "\n"@
        } else {
            shown + ":"@ + lines[n - 1] + "\n"@
        })
    } else {
        hit_lines(x, shown, lines, hits, n - 1)
    }
}

/// What is reported of one file, and whether that counts as a find.
pub open spec fn file_report(x: Style, shown: Seq<char>, lines: Seq<Seq<char>>, hits: Seq<bool>) -> (
    Seq<char>,
    bool,
) {
    let total = counted(hits, x.invert, lines.len() as int);
    let found = if x.names_only || x.count_only {
        ""@
    } else {
        hit_lines(x, shown, lines, hits, lines.len() as int)
    };
    let listed = x.names_only && (total != 0) != x.without_match;
    (
        found + (if listed {
            shown + "\n"@
        } else {
            ""@
        }) + (if x.count_only && total != 0 {
            shown + ":"@ + decimal(total) + "\n"@
        } else {
            ""@
        }),
        total != 0 || listed,
    )
}

fn count_hits(hits: &[bool], invert: bool) -> (r: usize)
    ensures
        r == counted(hits@, invert, hits@.len() as int),
{
    let mut total: usize = 0;
    let mut i: usize = 0;
    while i < hits.len()
        invariant
            i <= hits@.len(),
            total <= i,
            total == counted(hits@, invert, i as int),
        decreases hits@.len() - i,
    {
        if hits[i] != invert {
            total += 1;
        }
        i += 1;
    }
    total
}

/// Reports on one file, given the lines in which the pattern was found.
pub fn report_file(x: Style, shown: &str, lines: &[String], hits: &[bool]) -> (r: (String, bool))
    requires
        lines@.len() == hits@.len(),
    ensures
        (r.0@, r.1) == file_report(x, shown@, texts(lines@), hits@),
{
    let ghost all = texts(lines@);
    assert(all.len() == lines@.len());
    let total = count_hits(hits, x.invert);
    let mut out = copy_text("");
    if !x.names_only && !x.count_only {
        let mut i: usize = 0;
        while i < lines.len()
            invariant
                i <= lines@.len(),
                lines@.len() == lines.len(),
                lines@.len() == hits@.len(),
                all == texts(lines@),
                out@ == hit_lines(x, shown@, all, hits@, i as int),
            decreases lines@.len() - i,
        {
            assert(all[i as int] == lines@[i as int]@);
            if hits[i] != x.invert {
                let line = if x.line_numbers {
                    let mut line = join4(shown, ":", format_usize(i + 1).as_str(), ":");
                    line.append(lines[i].as_str());
                    line.append("\n");
                    line
                } else {
                    join4(shown, ":", lines[i].as_str(), "\n")
                };
                out.append(line.as_str());
            }
            i += 1;
        }
    }
    let listed = x.names_only && (total != 0) != x.without_match;
    if listed {
        out.append(join2(shown, "\n").as_str());
    } else {
        out.append("");
    }
    if x.count_only && total != 0 {
        out.append(join4(shown, ":", format_usize(total).as_str(), "\n").as_str());
    } else {
        out.append("");
    }
    (out, total != 0 || listed)
}

// ---------------------------------------------------------------------------
// All files
// ---------------------------------------------------------------------------

/// Where `git grep` searches: in the files of a commit that a name stands for, or in the working
/// tree; below a directory; and only what some path covers.
pub struct Place {
    pub revision: Option<String>,
    pub scope: Option<String>,
    pub paths: Vec<String>,
}

/// Where `git grep` searches.
#[verifier::ext_equal]
pub struct Where {
    pub revision: Option<Seq<char>>,
    pub scope: Option<Seq<char>>,
    pub paths: Seq<Seq<char>>,
}

impl View for Place {
    type V = Where;

    open spec fn view(&self) -> Where {
        Where {
            revision: opt_text(self.revision),
            scope: opt_text(self.scope),
            paths: texts(self.paths@),
        }
    }
}

/// The name under which a file is reported. Nothing for one that is not searched.
pub open spec fn shown_name(w: Where, path: Seq<char>) -> Option<Seq<char>> {
    if !covered(w.paths, path) {
        None
    } else {
        let inner = match w.scope {
            Some(prefix) => after_prefix(path, prefix),
            None => Some(path),
        };
        match inner {
            None => None,
            Some(name) => match w.revision {
                Some(revision) => Some(revision + ":"@ + name),
                None => Some(name),
            },
        }
    }
}

fn show_name(w: &Place, path: &str) -> (r: Option<String>)
    ensures
        opt_text(r) == shown_name(w@, path@),
{
    if !selected(w.paths.as_slice(), path) {
        return None;
    }
    let inner = match &w.scope {
        Some(prefix) => strip_prefix(path, prefix.as_str()),
        None => Some(copy_text(path)),
    };
    match inner {
        None => None,
        Some(name) => match &w.revision {
            Some(revision) => Some(join3(revision.as_str(), ":", name.as_str())),
            None => Some(name),
        },
    }
}

/// The content of a file that is searched.
pub open spec fn searched_content(m: Machine, root: Seq<char>, w: Where, path: Seq<char>, hash: Seq<char>) -> Option<
    Seq<u8>,
> {
    if w.revision is Some {
        blob_of(m, root, hash)
    } else {
        work_content(m, root, path)
    }
}

/// Searching the files of a tree from `i` on.
pub open spec fn files_searched(
    m: Machine,
    s: Screen,
    root: Seq<char>,
    x: Style,
    pattern: Seq<char>,
    ignore_case: bool,
    w: Where,
    t: Files,
    found: bool,
    i: int,
) -> Done
    decreases t.len() - i,
{
    if i < 0 || i >= t.len() || i >= MAX_GREP_FILES {
        Done {
            m,
            s,
            status: if found {
                0
            } else {
                1
            },
        }
    } else {
        match shown_name(w, t[i].0) {
            None => files_searched(m, s, root, x, pattern, ignore_case, w, t, found, i + 1),
            Some(shown) => match searched_content(m, root, w, t[i].0, t[i].1.hash) {
                None => files_searched(m, s, root, x, pattern, ignore_case, w, t, found, i + 1),
                Some(data) => {
                    let (enough, n) = charged(m, data.len() as int);
                    if !enough {
                        Done { m: n, s, status: STOPPED as int }
                    } else if binary(data) {
                        files_searched(n, s, root, x, pattern, ignore_case, w, t, found, i + 1)
                    } else {
                        let lines = line_list(loose_text(data));
                        let (out, hit) = file_report(
                            x,
                            shown,
                            lines,
                            hits_of(pattern, ignore_case, lines),
                        );
                        files_searched(
                            n,
                            printed(s, out),
                            root,
                            x,
                            pattern,
                            ignore_case,
                            w,
                            t,
                            found || hit,
                            i + 1,
                        )
                    }
                },
            },
        }
    }
}

fn search_files(
    system: &mut System,
    root: &str,
    x: Style,
    pattern: &str,
    ignore_case: bool,
    w: &Place,
    t: &Tree,
    io: &mut Io,
) -> (r: i32)
    requires
        regex_refusal(pattern@, ignore_case) is None,
    ensures
        done(final(system)@, final(io)@, r) == files_searched(
            old(system)@,
            old(io)@,
            root@,
            x,
            pattern@,
            ignore_case,
            w@,
            t@,
            false,
            0,
        ),
{
    let ghost goal = files_searched(
        system@,
        io@,
        root@,
        x,
        pattern@,
        ignore_case,
        w@,
        t@,
        false,
        0,
    );
    let mut found = false;
    let mut i: usize = 0;
    while i < t.len() && i < MAX_GREP_FILES
        invariant
            i <= t@.len(),
            regex_refusal(pattern@, ignore_case) is None,
            goal == files_searched(
                old(system)@,
                old(io)@,
                root@,
                x,
                pattern@,
                ignore_case,
                w@,
                t@,
                false,
                0,
            ),
            goal == files_searched(
                system@,
                io@,
                root@,
                x,
                pattern@,
                ignore_case,
                w@,
                t@,
                found,
                i as int,
            ),
        decreases t@.len() - i,
    {
        let path = t.key_at(i);
        if let Some(shown) = show_name(w, path) {
            let data = if w.revision.is_some() {
                read_blob(system, root, t.value_at(i).hash.as_str())
            } else {
                read_work_file(system, root, path)
            };
            assert(opt_bytes(data) == searched_content(
                system@,
                root@,
                w@,
                t@[i as int].0,
                t@[i as int].1.hash,
            ));
            if let Some(data) = data {
                if !system.charge_cpu(data.len() as u64) {
                    return STOPPED;
                }
                if !is_binary(data.as_slice()) {
                    let all = lines(decode_lossy(data.as_slice()).as_str());
                    let hits = find_hits(pattern, ignore_case, all.as_slice());
                    assert(texts(all@).len() == all@.len());
                    let (out, hit) = report_file(x, shown.as_str(), all.as_slice(), hits.as_slice());
                    io.print(out.as_str());
                    found = found || hit;
                }
            }
        }
        i += 1;
    }
    if found {
        0
    } else {
        1
    }
}

/// Whether the first path may stand for a revision: it came before the separator.
pub open spec fn revision_first(x: SearchWish) -> bool {
    x.paths.len() > 0 && match x.before_separator {
        Some(n) => n > 0,
        None => true,
    }
}

/// The revision that the first path stands for: its commit. A path that names a file stands for
/// none.
pub open spec fn first_revision(m: Machine, root: Seq<char>, x: SearchWish) -> Option<Seq<char>> {
    if revision_first(x) && !path_named(m, root, x.paths[0]) {
        revision(m, root, x.paths[0])
    } else {
        None
    }
}

/// The directory below which files are searched.
pub open spec fn search_scope(m: Machine, root: Seq<char>) -> Option<Seq<char>> {
    match relative(root, m.cwd) {
        Some(prefix) => if prefix.len() > 0 {
            Some(prefix + "/"@)
        } else {
            None
        },
        None => None,
    }
}

/// Searching for a pattern.
pub open spec fn searched(m: Machine, s: Screen, root: Seq<char>, x: SearchWish, pattern: Seq<char>) -> Done {
    let wanted = expression(pattern, x.fixed, x.word);
    if regex_refusal(wanted, x.ignore_case) is Some {
        failed(m, s, "invalid pattern: "@ + pattern)
    } else {
        match first_revision(m, root, x) {
            Some(id) => files_searched(
                m,
                s,
                root,
                x.style,
                wanted,
                x.ignore_case,
                (Where {
                    revision: Some(x.paths[0]),
                    scope: search_scope(m, root),
                    paths: pathspecs_of(
                        m.cwd,
                        root,
                        x.paths.subrange(1, x.paths.len() as int),
                    ),
                }),
                tree_or_empty(m, root, id),
                false,
                0,
            ),
            None => files_searched(
                m,
                s,
                root,
                x.style,
                wanted,
                x.ignore_case,
                (Where {
                    revision: None,
                    scope: search_scope(m, root),
                    paths: pathspecs_of(m.cwd, root, x.paths),
                }),
                index_or_empty(m, root),
                false,
                0,
            ),
        }
    }
}

/// What `git grep` does.
pub open spec fn grep_done(m: Machine, s: Screen, args: Seq<Seq<char>>) -> Done {
    match repo_root(m) {
        None => no_repo(m, s),
        Some(root) => match search_words(expanded(args, "niIlcEFv"@), plain_search(), false, 0) {
            Err(option) => misused(m, s, "unsupported grep option: "@ + option),
            Ok(x) => match x.pattern {
                None => misused(m, s, "usage: git grep [-n] [-i] [-l] PATTERN [-- PATH...]"@),
                Some(pattern) => searched(m, s, root, x, pattern),
            },
        },
    }
}

/// `git grep`: searches tracked files.
pub fn git_grep(system: &mut System, args: &[String], io: &mut Io) -> (r: i32)
    ensures
        done(final(system)@, final(io)@, r) == grep_done(old(system)@, old(io)@, texts(args@)),
{
    let root = match find_repo_root(system) {
        Some(root) => root,
        None => return repo_error(io),
    };
    let split = expand_clusters(args, "niIlcEFv");
    let x = match read_search(split.as_slice()) {
        Ok(x) => x,
        Err(option) => return usage(
            io,
            join2("unsupported grep option: ", option.as_str()).as_str(),
        ),
    };
    let pattern = match &x.pattern {
        Some(p) => copy_text(p.as_str()),
        None => return usage(io, "usage: git grep [-n] [-i] [-l] PATTERN [-- PATH...]"),
    };
    let wanted = build_expression(pattern.as_str(), x.fixed, x.word);
    if pattern_error(wanted.as_str(), x.ignore_case).is_some() {
        return fatal(io, join2("invalid pattern: ", pattern.as_str()).as_str());
    }
    let cwd = system.cwd();
    let ghost all = texts(x.paths@);
    assert(all.len() == x.paths@.len());
    assert(x.paths@.len() > 0 ==> all[0] == x.paths@[0]@);
    let may_be = x.paths.len() > 0 && match x.before_separator {
        Some(n) => n > 0,
        None => true,
    };
    let id = if may_be && !names_a_path(system, root.as_str(), x.paths[0].as_str()) {
        resolve_revision(system, root.as_str(), x.paths[0].as_str())
    } else {
        None
    };
    assert(opt_text(id) == first_revision(system@, root@, x@));
    let scope = match relative_path(root.as_str(), cwd.as_str()) {
        Some(prefix) => if prefix.as_str().is_empty() {
            None
        } else {
            Some(join2(prefix.as_str(), "/"))
        },
        None => None,
    };
    assert(opt_text(scope) == search_scope(system@, root@));
    match id {
        Some(id) => {
            let rest = vstd::slice::slice_subrange(x.paths.as_slice(), 1, x.paths.len());
            assert(texts(rest@) =~= all.subrange(1, all.len() as int));
            let w = Place {
                revision: Some(copy_text(x.paths[0].as_str())),
                scope,
                paths: pathspecs(cwd.as_str(), root.as_str(), rest),
            };
            let t = commit_tree_or_empty(system, root.as_str(), id.as_str());
            search_files(
                system,
                root.as_str(),
                x.style,
                wanted.as_str(),
                x.ignore_case,
                &w,
                &t,
                io,
            )
        },
        None => {
            let w = Place {
                revision: None,
                scope,
                paths: pathspecs(cwd.as_str(), root.as_str(), x.paths.as_slice()),
            };
            let t = load_index_or_empty(system, root.as_str());
            search_files(
                system,
                root.as_str(),
                x.style,
                wanted.as_str(),
                x.ignore_case,
                &w,
                &t,
                io,
            )
        },
    }
}

/// Of one file, the lines that are counted with and without inversion are together all its lines.
pub proof fn lemma_inverted_count(hits: Seq<bool>, n: int)
    requires
        0 <= n <= hits.len(),
    ensures
        counted(hits, false, n) + counted(hits, true, n) == n,
    decreases n,
{
    if n > 0 {
        lemma_inverted_count(hits, n - 1);
    }
}

/// A search for a fixed text hits exactly the lines that hold it.
pub proof fn lemma_fixed_search(pattern: Seq<char>, lines: Seq<Seq<char>>)
    ensures
        hits_of(expression(pattern, true, false), false, lines) == lines.map_values(
            |line: Seq<char>| holds(line, pattern),
        ),
{
    assert forall|i: int| 0 <= i < lines.len() implies #[trigger] hits_of(
        expression(pattern, true, false),
        false,
        lines,
    )[i] == holds(lines[i], pattern) by {
        lemma_plain_text_is_found(pattern, lines[i]);
    }
    assert(hits_of(expression(pattern, true, false), false, lines) =~= lines.map_values(
        |line: Seq<char>| holds(line, pattern),
    ));
}

} // verus!
