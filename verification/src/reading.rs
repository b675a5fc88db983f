//! The commands that only read: whatever they are asked, every file stays as it was, and so does the
//! working directory.

use vstd::prelude::*;

use crate::bytes::loose_text;
use crate::common::{index_or_empty, pathspecs_of, tree_or_empty};
use crate::compare::diff_done;
use crate::console::{printed, Screen};
use crate::flags::expanded;
use crate::hashing::{base64_done, hexdump_done, strings_done};
use crate::inspecting::{cat_file_done, check_ignore_done, ls_tree_done, merge_base_done};
use crate::listing::ls_done;
use crate::logging::{log_done, log_within};
use crate::patterns::hits_of;
use crate::references::{
    abbreviated_name, all_parsed, cut_id, full_name_of, object_named, plain_parse,
    ref_text, rev_list_done, rev_parse_done, ParseAsk,
};
use crate::repo::repo_root;
use crate::reporting::{
    describe_done, each_printed, each_ref_words, for_each_ref_done, references, shortlog_done, show_ref_done,
    some_starts, usual_format,
};
use crate::searching::{
    expression, file_report, files_searched, first_revision, grep_done, plain_search, search_scope, search_words,
    searched_content, shown_name, Style, Where, MAX_GREP_FILES,
};
use crate::showing::{all_shown, names_or_head, one_shown, plain_show, show_done, ShowAsk, ShowWish};
use crate::status::status_done;
use crate::syntax::{pass_for, stopped, talk_read, words_read};
use crate::system::{charged, Machine};
use crate::text::line_list;
use crate::trees::Files;

verus! {

/// `git status` only reads.
#[verifier::spinoff_prover]
#[verifier::rlimit(40)]
pub proof fn lemma_status_only_reads(m: Machine, s: Screen, args: Seq<Seq<char>>)
    ensures
        status_done(m, s, args).m.files == m.files,
        status_done(m, s, args).m.cwd == m.cwd,
        status_done(m, s, args).m.memory_limit == m.memory_limit,
{
}

/// `git diff` only reads.
#[verifier::spinoff_prover]
#[verifier::rlimit(40)]
pub proof fn lemma_diff_only_reads(m: Machine, s: Screen, args: Seq<Seq<char>>)
    ensures
        diff_done(m, s, args).m.files == m.files,
        diff_done(m, s, args).m.cwd == m.cwd,
{
}

/// `git log` only reads.
#[verifier::spinoff_prover]
#[verifier::rlimit(40)]
pub proof fn lemma_log_only_reads(m: Machine, s: Screen, args: Seq<Seq<char>>)
    ensures
        log_done(m, s, args).m.files == m.files,
        log_done(m, s, args).m.cwd == m.cwd,
{
    reveal(log_within);
}

proof fn lemma_all_shown(m: Machine, s: Screen, root: Seq<char>, x: ShowWish, names: Seq<Seq<char>>, i: int)
    ensures
        all_shown(m, s, root, x, names, i).m.files == m.files,
        all_shown(m, s, root, x, names, i).m.cwd == m.cwd,
    decreases names.len() - i,
{
    if 0 <= i < names.len() {
        let d = one_shown(m, s, root, x, names[i]);
        assert(d.m.files == m.files);
        if d.status == 0 {
            lemma_all_shown(m, d.s, root, x, names, i + 1);
        }
    }
}

/// `git show` only reads.
#[verifier::spinoff_prover]
#[verifier::rlimit(40)]
pub proof fn lemma_show_only_reads(m: Machine, s: Screen, args: Seq<Seq<char>>)
    ensures
        show_done(m, s, args).m.files == m.files,
        show_done(m, s, args).m.cwd == m.cwd,
{
    if let Some(root) = repo_root(m) {
        if let Ok((x, names)) = words_read::<ShowAsk>(pass_for(args, ""@, ""@), plain_show(), seq![]) {
            lemma_all_shown(m, s, root, x, names_or_head(names), 0);
        }
    }
}

proof fn lemma_all_parsed(m: Machine, s: Screen, root: Seq<char>, x: ParseAsk, v: Seq<Seq<char>>, i: int)
    ensures
        all_parsed(m, s, root, x, v, i).m.files == m.files,
        all_parsed(m, s, root, x, v, i).m.cwd == m.cwd,
    decreases v.len() - i,
{
    if 0 <= i < v.len() {
        if x.full_name {
            lemma_all_parsed(m, printed(s, full_name_of(m, root, v[i]) + "\n"@), root, x, v, i + 1);
        } else if x.abbrev_ref {
            lemma_all_parsed(m, printed(s, abbreviated_name(m, root, v[i]) + "\n"@), root, x, v, i + 1);
        } else if let Some(id) = object_named(m, root, v[i]) {
            lemma_all_parsed(m, printed(s, cut_id(id, x.length) + "\n"@), root, x, v, i + 1);
        }
    }
}

/// `git rev-parse` only reads.
#[verifier::spinoff_prover]
#[verifier::rlimit(40)]
pub proof fn lemma_rev_parse_only_reads(m: Machine, s: Screen, args: Seq<Seq<char>>)
    ensures
        rev_parse_done(m, s, args).m.files == m.files,
        rev_parse_done(m, s, args).m.cwd == m.cwd,
{
    if let Some(root) = repo_root(m) {
        match talk_read::<ParseAsk>(m, root, pass_for(args, ""@, ""@), plain_parse(), seq![]) {
            Ok((x, names)) => lemma_all_parsed(m, s, root, x, names_or_head(names), 0),
            Err(e) => assert(stopped(m, s, e).m.files == m.files),
        }
    }
}

/// `git rev-list` only reads.
#[verifier::spinoff_prover]
#[verifier::rlimit(40)]
pub proof fn lemma_rev_list_only_reads(m: Machine, s: Screen, args: Seq<Seq<char>>)
    ensures
        rev_list_done(m, s, args).m.files == m.files,
        rev_list_done(m, s, args).m.cwd == m.cwd,
{
}

/// `git ls-files` only reads.
#[verifier::spinoff_prover]
#[verifier::rlimit(40)]
pub proof fn lemma_ls_files_only_reads(m: Machine, s: Screen, args: Seq<Seq<char>>)
    ensures
        ls_done(m, s, args).m.files == m.files,
        ls_done(m, s, args).m.cwd == m.cwd,
{
}

/// `git cat-file` only reads.
#[verifier::spinoff_prover]
#[verifier::rlimit(40)]
pub proof fn lemma_cat_file_only_reads(m: Machine, s: Screen, args: Seq<Seq<char>>)
    ensures
        cat_file_done(m, s, args).m.files == m.files,
        cat_file_done(m, s, args).m.cwd == m.cwd,
{
}

/// `git ls-tree` only reads.
#[verifier::spinoff_prover]
#[verifier::rlimit(40)]
pub proof fn lemma_ls_tree_only_reads(m: Machine, s: Screen, args: Seq<Seq<char>>)
    ensures
        ls_tree_done(m, s, args).m.files == m.files,
        ls_tree_done(m, s, args).m.cwd == m.cwd,
{
}

/// `git check-ignore` only reads.
#[verifier::spinoff_prover]
#[verifier::rlimit(40)]
pub proof fn lemma_check_ignore_only_reads(m: Machine, s: Screen, args: Seq<Seq<char>>)
    ensures
        check_ignore_done(m, s, args).m.files == m.files,
        check_ignore_done(m, s, args).m.cwd == m.cwd,
{
}

/// `git merge-base` only reads.
#[verifier::spinoff_prover]
#[verifier::rlimit(40)]
pub proof fn lemma_merge_base_only_reads(m: Machine, s: Screen, args: Seq<Seq<char>>)
    ensures
        merge_base_done(m, s, args).m.files == m.files,
        merge_base_done(m, s, args).m.cwd == m.cwd,
{
}

/// `git describe` only reads.
#[verifier::spinoff_prover]
#[verifier::rlimit(40)]
pub proof fn lemma_describe_only_reads(m: Machine, s: Screen, args: Seq<Seq<char>>)
    ensures
        describe_done(m, s, args).m.files == m.files,
        describe_done(m, s, args).m.cwd == m.cwd,
{
}

/// `git shortlog` only reads.
#[verifier::spinoff_prover]
#[verifier::rlimit(40)]
pub proof fn lemma_shortlog_only_reads(m: Machine, s: Screen, args: Seq<Seq<char>>)
    ensures
        shortlog_done(m, s, args).m.files == m.files,
        shortlog_done(m, s, args).m.cwd == m.cwd,
{
}

/// `git show-ref` only reads.
#[verifier::spinoff_prover]
#[verifier::rlimit(40)]
pub proof fn lemma_show_ref_only_reads(m: Machine, s: Screen, args: Seq<Seq<char>>)
    ensures
        show_ref_done(m, s, args).m.files == m.files,
        show_ref_done(m, s, args).m.cwd == m.cwd,
{
}

proof fn lemma_each_printed(
    m: Machine,
    s: Screen,
    format: Seq<char>,
    prefixes: Seq<Seq<char>>,
    v: Seq<(Seq<char>, Seq<char>)>,
    i: int,
)
    ensures
        each_printed(m, s, format, prefixes, v, i).m.files == m.files,
        each_printed(m, s, format, prefixes, v, i).m.cwd == m.cwd,
    decreases v.len() - i,
{
    if 0 <= i < v.len() {
        if prefixes.len() > 0 && !some_starts(prefixes, v[i].0) {
            lemma_each_printed(m, s, format, prefixes, v, i + 1);
        } else if let Some(line) = ref_text(format, v[i].0, v[i].1) {
            lemma_each_printed(m, printed(s, line + "\n"@), format, prefixes, v, i + 1);
        }
    }
}

/// `git for-each-ref` only reads.
#[verifier::spinoff_prover]
#[verifier::rlimit(40)]
pub proof fn lemma_for_each_ref_only_reads(m: Machine, s: Screen, args: Seq<Seq<char>>)
    ensures
        for_each_ref_done(m, s, args).m.files == m.files,
        for_each_ref_done(m, s, args).m.cwd == m.cwd,
{
    if let Some(root) = repo_root(m) {
        if let Ok((format, prefixes)) = each_ref_words(args, None, seq![], 0) {
            let f = match format {
                Some(f) => f,
                None => usual_format(),
            };
            lemma_each_printed(m, s, f, prefixes, references(m, root), 0);
        }
    }
}

proof fn lemma_files_searched(
    m: Machine,
    s: Screen,
    root: Seq<char>,
    x: Style,
    pattern: Seq<char>,
    ignore_case: bool,
    w: Where,
    t: Files,
    found: bool,
    i: int,
)
    ensures
        files_searched(m, s, root, x, pattern, ignore_case, w, t, found, i).m.files == m.files,
        files_searched(m, s, root, x, pattern, ignore_case, w, t, found, i).m.cwd == m.cwd,
    decreases t.len() - i,
{
    if 0 <= i < t.len() && i < MAX_GREP_FILES {
        match shown_name(w, t[i].0) {
            None => lemma_files_searched(m, s, root, x, pattern, ignore_case, w, t, found, i + 1),
            Some(shown) => match searched_content(m, root, w, t[i].0, t[i].1.hash) {
                None => lemma_files_searched(m, s, root, x, pattern, ignore_case, w, t, found, i + 1),
                Some(data) => {
                    let (enough, n) = charged(m, data.len() as int);
                    if enough {
                        lemma_files_searched(n, s, root, x, pattern, ignore_case, w, t, found, i + 1);
                        let lines = line_list(loose_text(data));
                        let (out, hit) = file_report(
                            x,
                            shown,
                            lines,
                            hits_of(pattern, ignore_case, lines),
                        );
                        lemma_files_searched(
                            n,
                            printed(s, out),
                            root,
                            x,
                            pattern,
                            ignore_case,
                            w,
                            t,
                            found || hit,
                            i + 1,
                        );
                    }
                },
            },
        }
    }
}

/// `git grep` only reads.
#[verifier::spinoff_prover]
#[verifier::rlimit(40)]
pub proof fn lemma_search_only_reads(m: Machine, s: Screen, args: Seq<Seq<char>>)
    ensures
        grep_done(m, s, args).m.files == m.files,
        grep_done(m, s, args).m.cwd == m.cwd,
{
    if let Some(root) = repo_root(m) {
        if let Ok(x) = search_words(expanded(args, "niIlcEFv"@), plain_search(), false, 0) {
            if let Some(pattern) = x.pattern {
                let wanted = expression(pattern, x.fixed, x.word);
                match first_revision(m, root, x) {
                    Some(id) => lemma_files_searched(
                        m,
                        s,
                        root,
                        x.style,
                        wanted,
                        x.ignore_case,
                        (Where {
                            revision: Some(x.paths[0]),
                            scope: search_scope(m, root),
                            paths: pathspecs_of(
                                m.cwd,
                                root,
                                x.paths.subrange(1, x.paths.len() as int),
                            ),
                        }),
                        tree_or_empty(m, root, id),
                        false,
                        0,
                    ),
                    None => lemma_files_searched(
                        m,
                        s,
                        root,
                        x.style,
                        wanted,
                        x.ignore_case,
                        (Where {
                            revision: None,
                            scope: search_scope(m, root),
                            paths: pathspecs_of(m.cwd, root, x.paths),
                        }),
                        index_or_empty(m, root),
                        false,
                        0,
                    ),
                }
            }
        }
    }
}

/// `base64` only reads.
pub proof fn lemma_base64_only_reads(m: Machine, s: Screen, args: Seq<Seq<char>>)
    ensures
        base64_done(m, s, args).m.files == m.files,
        base64_done(m, s, args).m.cwd == m.cwd,
{
}

/// `hexdump` only reads.
pub proof fn lemma_hexdump_only_reads(m: Machine, s: Screen, args: Seq<Seq<char>>)
    ensures
        hexdump_done(m, s, args).m.files == m.files,
        hexdump_done(m, s, args).m.cwd == m.cwd,
{
}

/// `strings` only reads.
pub proof fn lemma_strings_only_reads(m: Machine, s: Screen, args: Seq<Seq<char>>)
    ensures
        strings_done(m, s, args).m.files == m.files,
        strings_done(m, s, args).m.cwd == m.cwd,
{
}

} // verus!
