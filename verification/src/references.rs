//! Names for commits: `git rev-parse`, `git rev-list` and `git branch`.

use vstd::prelude::*;
use vstd::utf8::encode_utf8;

use crate::common::done;
use crate::console::{
    ambiguous, ambiguous_argument, cannot_write, complained, failed, fatal, misused, no_repo, printed, repo_error,
    usage, write_message, Done, Io, Screen,
};
use crate::graph::times_over;
use crate::history::{ancestors, ancestry, listed, within, Listed};
use crate::logging::{count_in, portion};
use crate::numbers::{decimal, format_usize, pad_right, padded_right, parse_usize, read_unsigned};
use crate::objects::{short, short_id};
use crate::order::lookup;
use crate::repo::{
    branch_names, branch_of, branches, commit_tree, current_branch, delete_reference, find_repo_root, git_file,
    head_commit, head_id, head_on_branch, in_git, is_git_path, read_reference, ref_names, reference_names,
    reference_of, reference_written, relative, relative_path, repo_root, set_head_to_branch, tree_at,
    write_reference,
};
use crate::restoring::{subject_at, subject_of_commit};
use crate::revisions::{resolve_revision, revision, tree_and_path, tree_path};
use crate::revset::{
    count_named, count_option, history_for, history_of, list_starting_points, starting_points, MAX_LISTED,
};
use crate::showing::names_or_head;
use crate::syntax::{
    flags_for, pass_for, read_talk, read_words, stopped, talk_read, words_read, Halt, Stop, Syntax, Talk, Want,
};
use crate::system::{below, path_join, refusal_text, Machine, Refusal, System};
use crate::text::{
    after_prefix, before_suffix, char_at_or_after, chars_of, contains, copy_text, cut, ends, ends_with, find_at,
    find_from, holds, index_from, is_space, is_whitespace, join, join2, join3, join5, joined, lemma_find_from,
    lemma_index_from, lemma_texts_push, opt_text, pieces, rcut_once, rsplit_once, same, split, starts, starts_with,
    strip_prefix, strip_suffix, texts,
};
use crate::trees::{tree_hash, tree_id};
use crate::wildcards::{glob_eq, wildcard};

verus! {

// ---------------------------------------------------------------------------
// Templates for references
// ---------------------------------------------------------------------------

/// The name of a reference without the directory of its kind.
pub open spec fn short_name(name: Seq<char>) -> Seq<char> {
    match after_prefix(name, "refs/heads/"@) {
        Some(rest) => rest,
        None => match after_prefix(name, "refs/tags/"@) {
            Some(rest) => rest,
            None => name,
        },
    }
}

fn shorten_name(name: &str) -> (r: String)
    ensures
        r@ == short_name(name@),
{
    match strip_prefix(name, "refs/heads/") {
        Some(rest) => rest,
        None => match strip_prefix(name, "refs/tags/") {
            Some(rest) => rest,
            None => copy_text(name),
        },
    }
}

/// The text of one field of a reference.
pub open spec fn ref_field(field: Seq<char>, name: Seq<char>, id: Seq<char>) -> Option<Seq<char>> {
    if field == "refname"@ {
        Some(name)
    } else if field == "refname:short"@ || field == "refname:lstrip=2"@ {
        Some(short_name(name))
    } else if field == "objectname"@ {
        Some(id)
    } else if field == "objectname:short"@ {
        Some(short_id(id))
    } else if field == "objecttype"@ {
        Some("commit"@)
    } else {
        None
    }
}

fn expand_ref_field(field: &str, name: &str, id: &str) -> (r: Option<String>)
    ensures
        opt_text(r) == ref_field(field@, name@, id@),
{
    if same(field, "refname") {
        Some(copy_text(name))
    } else if same(field, "refname:short") || same(field, "refname:lstrip=2") {
        Some(shorten_name(name))
    } else if same(field, "objectname") {
        Some(copy_text(id))
    } else if same(field, "objectname:short") {
        Some(short(id))
    } else if same(field, "objecttype") {
        Some(copy_text("commit"))
    } else {
        None
    }
}

/// The text of a template from `i` on, with what came before. A field that is not known, or that is
/// not closed, is refused.
pub open spec fn ref_text_from(
    f: Seq<char>,
    name: Seq<char>,
    id: Seq<char>,
    i: int,
    out: Seq<char>,
) -> Option<Seq<char>>
    decreases f.len() - i,
{
    match find_from(f, "%("@, i) {
        None => Some(out + f.subrange(i, f.len() as int)),
        Some(start) => match index_from(f, ')', start) {
            None => None,
            Some(end) => if start < i || end < start + 2 || end >= f.len() {
                None
            } else {
                match ref_field(f.subrange(start + 2, end), name, id) {
                    None => None,
                    Some(text) => ref_text_from(
                        f,
                        name,
                        id,
                        end + 1,
                        out + f.subrange(i, start) + text,
                    ),
                }
            },
        },
    }
}

/// The text of a template for a reference.
pub open spec fn ref_text(f: Seq<char>, name: Seq<char>, id: Seq<char>) -> Option<Seq<char>> {
    ref_text_from(f, name, id, 0, ""@)
}

/// The text of a template for a reference.
pub fn expand_ref_format(format: &str, name: &str, id: &str) -> (r: Option<String>)
    ensures
        opt_text(r) == ref_text(format@, name@, id@),
{
    let f = chars_of(format);
    let mark = chars_of("%(");
    let mut out = copy_text("");
    let mut i: usize = 0;
    let ghost goal = ref_text(format@, name@, id@);
    loop
        invariant
            i <= f@.len(),
            f@ == format@,
            mark@ == "%("@,
            goal == ref_text(format@, name@, id@),
            goal == ref_text_from(f@, name@, id@, i as int, out@),
        decreases f@.len() - i,
    {
        match find_at(f.as_slice(), mark.as_slice(), i) {
            None => {
                out.append(cut(f.as_slice(), i, f.len()).as_str());
                return Some(out);
            },
            Some(start) => {
                proof {
                    reveal_strlit("%(");
                    lemma_find_from(f@, mark@, i as int);
                    lemma_index_from(f@, ')', start as int);
                    assert(f@[start as int] == mark@[0]);
                    assert(f@[start + 1] == mark@[1]);
                }
                match char_at_or_after(f.as_slice(), ')', start) {
                    None => return None,
                    Some(end) => {
                        let field = cut(f.as_slice(), start + 2, end);
                        match expand_ref_field(field.as_str(), name, id) {
                            None => return None,
                            Some(text) => {
                                out.append(cut(f.as_slice(), i, start).as_str());
                                out.append(text.as_str());
                                i = end + 1;
                            },
                        }
                    },
                }
            },
        }
    }
}

// ---------------------------------------------------------------------------
// git rev-parse
// ---------------------------------------------------------------------------

/// What the options of `git rev-parse` ask for.
#[derive(Clone, Copy)]
pub struct ParseAsk {
    pub length: Option<usize>,
    pub abbrev_ref: bool,
    pub full_name: bool,
    pub quiet: bool,
}

impl View for ParseAsk {
    type V = ParseAsk;

    open spec fn view(&self) -> ParseAsk {
        *self
    }
}

/// What `git rev-parse` is asked for without any option.
pub open spec fn plain_parse() -> ParseAsk {
    ParseAsk { length: None, abbrev_ref: false, full_name: false, quiet: false }
}

/// A length between the shortest and the longest id that is shown.
pub open spec fn id_length(n: nat) -> usize {
    if n < 4 {
        4
    } else if n > 40 {
        40
    } else {
        n as usize
    }
}

/// The directory of the repository as it is shown from where the shell stands.
pub open spec fn git_dir_shown(cwd: Seq<char>, root: Seq<char>) -> Seq<char> {
    if cwd == root {
        ".git"@
    } else {
        below(root, ".git"@)
    }
}

/// The way up to the root.
pub open spec fn way_up(cwd: Seq<char>, root: Seq<char>) -> Seq<char> {
    times_over(
        "../"@,
        match relative(root, cwd) {
            Some(prefix) => pieces(prefix, '/').len(),
            None => 0,
        },
    )
}

/// The way down from the root.
pub open spec fn way_down(cwd: Seq<char>, root: Seq<char>) -> Seq<char> {
    match relative(root, cwd) {
        Some(prefix) => prefix + "/"@,
        None => ""@,
    }
}

/// The answer to an option that is answered at once.
pub open spec fn parse_answer(m: Machine, root: Seq<char>, name: Seq<char>) -> Option<Seq<char>> {
    if name == "--show-toplevel"@ {
        Some(root + "\n"@)
    } else if name == "--is-inside-work-tree"@ {
        Some("true\n"@)
    } else if name == "--is-inside-git-dir"@ {
        Some(
            if in_git(root, m.cwd) {
                "true\n"@
            } else {
                "false\n"@
            },
        )
    } else if name == "--git-dir"@ {
        Some(git_dir_shown(m.cwd, root) + "\n"@)
    } else if name == "--absolute-git-dir"@ {
        Some(below(root, ".git"@) + "\n"@)
    } else if name == "--is-bare-repository"@ {
        Some("false\n"@)
    } else if name == "--show-cdup"@ {
        Some(way_up(m.cwd, root) + "\n"@)
    } else if name == "--show-prefix"@ {
        Some(way_down(m.cwd, root) + "\n"@)
    } else {
        None
    }
}

fn write_way_up(cwd: &str, root: &str) -> (r: String)
    ensures
        r@ == way_up(cwd@, root@),
{
    let depth: usize = match relative_path(root, cwd) {
        Some(prefix) => {
            let v = split(prefix.as_str(), '/');
            assert(texts(v@).len() == v@.len());
            v.len()
        },
        None => 0,
    };
    let mut out = copy_text("");
    let mut i: usize = 0;
    while i < depth
        invariant
            i <= depth,
            out@ == times_over("../"@, i as nat),
        decreases depth - i,
    {
        out.append("../");
        i += 1;
    }
    out
}

fn answer_parse(system: &System, root: &str, name: &str) -> (r: Option<String>)
    ensures
        opt_text(r) == parse_answer(system@, root@, name@),
{
    let cwd = system.cwd();
    if same(name, "--show-toplevel") {
        Some(join2(root, "\n"))
    } else if same(name, "--is-inside-work-tree") {
        Some(copy_text("true\n"))
    } else if same(name, "--is-inside-git-dir") {
        Some(
            copy_text(
                if is_git_path(root, cwd.as_str()) {
                    "true\n"
                } else {
                    "false\n"
                },
            ),
        )
    } else if same(name, "--git-dir") {
        let shown = if same(cwd.as_str(), root) {
            copy_text(".git")
        } else {
            path_join(root, ".git")
        };
        Some(join2(shown.as_str(), "\n"))
    } else if same(name, "--absolute-git-dir") {
        Some(join2(path_join(root, ".git").as_str(), "\n"))
    } else if same(name, "--is-bare-repository") {
        Some(copy_text("false\n"))
    } else if same(name, "--show-cdup") {
        Some(join2(write_way_up(cwd.as_str(), root).as_str(), "\n"))
    } else if same(name, "--show-prefix") {
        let down = match relative_path(root, cwd.as_str()) {
            Some(prefix) => join2(prefix.as_str(), "/"),
            None => copy_text(""),
        };
        Some(join2(down.as_str(), "\n"))
    } else {
        None
    }
}

impl Talk for ParseAsk {
    open spec fn wants(name: Seq<char>) -> Want {
        Want::Attached
    }

    open spec fn with(
        m: Machine,
        root: Seq<char>,
        asked: ParseAsk,
        name: Seq<char>,
        value: Option<Seq<char>>,
    ) -> Result<ParseAsk, Stop> {
        match parse_answer(m, root, name) {
            Some(text) => Err(Stop::Said(text)),
            None => if name == "--short"@ {
                match value {
                    None => Ok(ParseAsk { length: Some(7), ..asked }),
                    Some(v) => match read_unsigned(v, usize::MAX as nat) {
                        Some(n) => Ok(ParseAsk { length: Some(id_length(n)), ..asked }),
                        None => Err(Stop::Wrong("--short requires a length"@)),
                    },
                }
            } else if name == "--abbrev-ref"@ {
                Ok(ParseAsk { abbrev_ref: true, ..asked })
            } else if name == "--symbolic-full-name"@ {
                Ok(ParseAsk { full_name: true, ..asked })
            } else if name == "--verify"@ {
                Ok(asked)
            } else if name == "-q"@ || name == "--quiet"@ {
                Ok(ParseAsk { quiet: true, ..asked })
            } else {
                Err(Stop::Wrong("unsupported rev-parse option: "@ + name))
            },
        }
    }

    fn wanted(name: &str) -> (r: Want) {
        Want::Attached
    }

    fn apply(&mut self, system: &System, root: &str, name: &str, value: Option<String>) -> (r: Result<
        (),
        Halt,
    >) {
        if let Some(text) = answer_parse(system, root, name) {
            return Err(Halt::Said(text));
        }
        if same(name, "--short") {
            match value {
                None => self.length = Some(7),
                Some(v) => match parse_usize(v.as_str()) {
                    Some(n) => {
                        self.length = Some(
                            if n < 4 {
                                4
                            } else if n > 40 {
                                40
                            } else {
                                n
                            },
                        );
                    },
                    None => return Err(Halt::Wrong(copy_text("--short requires a length"))),
                },
            }
        } else if same(name, "--abbrev-ref") {
            self.abbrev_ref = true;
        } else if same(name, "--symbolic-full-name") {
            self.full_name = true;
        } else if same(name, "--verify") {
        } else if same(name, "-q") || same(name, "--quiet") {
            self.quiet = true;
        } else {
            return Err(Halt::Wrong(join2("unsupported rev-parse option: ", name)));
        }
        Ok(())
    }
}

/// The id of what an operand names: a commit, a tree or a file.
pub open spec fn object_named(m: Machine, root: Seq<char>, s: Seq<char>) -> Option<Seq<char>> {
    if holds(s, ":"@) {
        match tree_path(m, root, s) {
            None => None,
            Some((tree, path)) => if path.len() == 0 {
                Some(tree_id(tree))
            } else {
                match lookup(tree, path) {
                    Some(r) => Some(r.hash),
                    None => None,
                }
            },
        }
    } else {
        match before_suffix(s, "^{tree}"@) {
            Some(base) => match revision(m, root, base) {
                None => None,
                Some(id) => match tree_at(m, root, id) {
                    Some(t) => Some(tree_id(t)),
                    None => None,
                },
            },
            None => revision(
                m,
                root,
                match before_suffix(s, "^{commit}"@) {
                    Some(base) => base,
                    None => match before_suffix(s, "^{}"@) {
                        Some(base) => base,
                        None => s,
                    },
                },
            ),
        }
    }
}

/// The id of what an operand names: a commit, a tree or a file.
pub fn rev_parse_object(system: &System, root: &str, s: &str) -> (r: Option<String>)
    ensures
        opt_text(r) == object_named(system@, root@, s@),
{
    if contains(s, ":") {
        return match tree_and_path(system, root, s) {
            None => None,
            Some((tree, path)) => if path.as_str().is_empty() {
                Some(tree_hash(&tree))
            } else {
                match tree.get(path.as_str()) {
                    Some(e) => Some(copy_text(e.hash.as_str())),
                    None => None,
                }
            },
        };
    }
    if let Some(base) = strip_suffix(s, "^{tree}") {
        return match resolve_revision(system, root, base.as_str()) {
            None => None,
            Some(id) => match commit_tree(system, root, id.as_str()) {
                Some(t) => Some(tree_hash(&t)),
                None => None,
            },
        };
    }
    let base = match strip_suffix(s, "^{commit}") {
        Some(base) => base,
        None => match strip_suffix(s, "^{}") {
            Some(base) => base,
            None => copy_text(s),
        },
    };
    resolve_revision(system, root, base.as_str())
}

/// The full name of the reference that an operand names; nothing where there is none.
pub open spec fn full_name_of(m: Machine, root: Seq<char>, s: Seq<char>) -> Seq<char> {
    if s == "HEAD"@ {
        match branch_of(m, root) {
            Some(b) => "refs/heads/"@ + b,
            None => "HEAD"@,
        }
    } else if starts(s, "refs/"@) {
        s
    } else if branches(m, root).contains(s) {
        "refs/heads/"@ + s
    } else if ref_names(m, root, "tags"@).contains(s) {
        "refs/tags/"@ + s
    } else {
        ""@
    }
}

/// The last part of a name.
pub open spec fn last_part(s: Seq<char>) -> Seq<char> {
    match rcut_once(s, '/') {
        Some((_, rest)) => rest,
        None => s,
    }
}

/// The last part of a name.
pub fn take_last_part(s: &str) -> (r: String)
    ensures
        r@ == last_part(s@),
{
    match rsplit_once(s, '/') {
        Some((_, rest)) => rest,
        None => copy_text(s),
    }
}

/// The short name of the reference that an operand names.
pub open spec fn abbreviated_name(m: Machine, root: Seq<char>, s: Seq<char>) -> Seq<char> {
    if s == "HEAD"@ {
        match branch_of(m, root) {
            Some(b) => b,
            None => "HEAD"@,
        }
    } else {
        last_part(s)
    }
}

/// Whether a list holds a text.
pub fn list_holds(v: &[String], s: &str) -> (r: bool)
    ensures
        r == texts(v@).contains(s@),
{
    let ghost all = texts(v@);
    let mut i: usize = 0;
    while i < v.len()
        invariant
            i <= v@.len(),
            all == texts(v@),
            forall|k: int| 0 <= k < i ==> #[trigger] all[k] != s@,
        decreases v@.len() - i,
    {
        assert(all.len() == v@.len());
        assert(all[i as int] == v@[i as int]@);
        if same(v[i].as_str(), s) {
            assert(all.contains(s@));
            return true;
        }
        i += 1;
    }
    assert(all.len() == v@.len());
    false
}

fn find_full_name(system: &System, root: &str, s: &str) -> (r: String)
    ensures
        r@ == full_name_of(system@, root@, s@),
{
    if same(s, "HEAD") {
        return match current_branch(system, root) {
            Some(b) => join2("refs/heads/", b.as_str()),
            None => copy_text("HEAD"),
        };
    }
    if starts_with(s, "refs/") {
        return copy_text(s);
    }
    if list_holds(branch_names(system, root).as_slice(), s) {
        return join2("refs/heads/", s);
    }
    if list_holds(reference_names(system, root, "tags").as_slice(), s) {
        return join2("refs/tags/", s);
    }
    copy_text("")
}

/// An id cut to a length.
pub open spec fn cut_id(id: Seq<char>, length: Option<usize>) -> Seq<char> {
    match length {
        Some(n) => if n < id.len() {
            id.take(n as int)
        } else {
            id
        },
        None => id,
    }
}

fn shorten_id(id: &str, length: Option<usize>) -> (r: String)
    ensures
        r@ == cut_id(id@, length),
{
    match length {
        Some(n) => {
            let cs = chars_of(id);
            if n < cs.len() {
                let r = cut(cs.as_slice(), 0, n);
                assert(cs@.subrange(0, n as int) =~= id@.take(n as int));
                r
            } else {
                copy_text(id)
            }
        },
        None => copy_text(id),
    }
}

/// What `git rev-parse` does with its operands from `i` on.
pub open spec fn all_parsed(
    m: Machine,
    s: Screen,
    root: Seq<char>,
    x: ParseAsk,
    v: Seq<Seq<char>>,
    i: int,
) -> Done
    decreases v.len() - i,
{
    if i < 0 || i >= v.len() {
        Done { m, s, status: 0 }
    } else if x.full_name {
        all_parsed(m, printed(s, full_name_of(m, root, v[i]) + "\n"@), root, x, v, i + 1)
    } else if x.abbrev_ref {
        all_parsed(m, printed(s, abbreviated_name(m, root, v[i]) + "\n"@), root, x, v, i + 1)
    } else {
        match object_named(m, root, v[i]) {
            None => if x.quiet {
                Done { m, s, status: 1 }
            } else {
                ambiguous(m, s, v[i])
            },
            Some(id) => all_parsed(
                m,
                printed(s, cut_id(id, x.length) + "\n"@),
                root,
                x,
                v,
                i + 1,
            ),
        }
    }
}

/// `git rev-parse`.
pub open spec fn rev_parse_done(m: Machine, s: Screen, args: Seq<Seq<char>>) -> Done {
    match repo_root(m) {
        None => no_repo(m, s),
        Some(root) => match talk_read::<ParseAsk>(
            m,
            root,
            pass_for(args, ""@, ""@),
            plain_parse(),
            seq![],
        ) {
            Err(e) => stopped(m, s, e),
            Ok((x, names)) => all_parsed(m, s, root, x, names_or_head(names), 0),
        },
    }
}

/// `git rev-parse`: turns names into ids.
pub fn git_rev_parse(system: &mut System, args: &[String], io: &mut Io) -> (r: i32)
    ensures
        done(final(system)@, final(io)@, r) == rev_parse_done(old(system)@, old(io)@, texts(args@)),
{
    let root = match find_repo_root(system) {
        Some(root) => root,
        None => return repo_error(io),
    };
    let start = ParseAsk { length: None, abbrev_ref: false, full_name: false, quiet: false };
    let (x, names) = match read_talk(system, root.as_str(), flags_for(args, "", ""), start) {
        Ok(words) => words,
        Err(e) => {
            assert(stopped(system@, io@, e@).m == system@);
            return e.report(io);
        },
    };
    let mut names = names;
    assert(texts(names@).len() == names@.len());
    if names.len() == 0 {
        names.push(copy_text("HEAD"));
        assert(texts(names@) =~= seq!["HEAD"@]);
    }
    let ghost all = texts(names@);
    let ghost goal = all_parsed(system@, io@, root@, x@, all, 0);
    let mut i: usize = 0;
    while i < names.len()
        invariant
            i <= names@.len(),
            all == texts(names@),
            system@ == old(system)@,
            goal == rev_parse_done(old(system)@, old(io)@, texts(args@)),
            goal == all_parsed(system@, io@, root@, x@, all, i as int),
        decreases names@.len() - i,
    {
        assert(all.len() == names@.len());
        assert(all[i as int] == names@[i as int]@);
        let name = names[i].as_str();
        if x.full_name {
            let full = find_full_name(system, root.as_str(), name);
            io.print(join2(full.as_str(), "\n").as_str());
        } else if x.abbrev_ref {
            let part = if same(name, "HEAD") {
                match current_branch(system, root.as_str()) {
                    Some(b) => b,
                    None => copy_text("HEAD"),
                }
            } else {
                take_last_part(name)
            };
            io.print(join2(part.as_str(), "\n").as_str());
        } else {
            match rev_parse_object(system, root.as_str(), name) {
                None => {
                    if x.quiet {
                        return 1;
                    }
                    return ambiguous_argument(io, name);
                },
                Some(id) => {
                    let shown = shorten_id(id.as_str(), x.length);
                    io.print(join2(shown.as_str(), "\n").as_str());
                },
            }
        }
        i += 1;
    }
    0
}

// ---------------------------------------------------------------------------
// git rev-list
// ---------------------------------------------------------------------------

/// What the options of `git rev-list` ask for.
#[derive(Clone, Copy)]
pub struct ListAsk {
    pub count: bool,
    pub all_references: bool,
    pub limit: usize,
}

impl View for ListAsk {
    type V = ListAsk;

    open spec fn view(&self) -> ListAsk {
        *self
    }
}

/// What `git rev-list` is asked for without any option.
pub open spec fn plain_list() -> ListAsk {
    ListAsk { count: false, all_references: false, limit: MAX_LISTED }
}

impl Syntax for ListAsk {
    open spec fn wants(name: Seq<char>) -> Want {
        if name == "-n"@ || name == "--max-count"@ {
            Want::Needed
        } else {
            Want::Attached
        }
    }

    open spec fn with(asked: ListAsk, name: Seq<char>, value: Option<Seq<char>>) -> Result<
        ListAsk,
        Seq<char>,
    > {
        if name == "--count"@ {
            Ok(ListAsk { count: true, ..asked })
        } else if name == "--all"@ {
            Ok(ListAsk { all_references: true, ..asked })
        } else if name == "-n"@ || name == "--max-count"@ {
            match count_in(value) {
                Some(n) => Ok(ListAsk { limit: n as usize, ..asked }),
                None => Err("rev-list count must be a non-negative integer"@),
            }
        } else {
            match count_named(name) {
                Some(n) => Ok(ListAsk { limit: n as usize, ..asked }),
                None => Err("unsupported rev-list option: "@ + name),
            }
        }
    }

    fn wanted(name: &str) -> (r: Want) {
        if same(name, "-n") || same(name, "--max-count") {
            Want::Needed
        } else {
            Want::Attached
        }
    }

    fn apply(&mut self, name: &str, value: Option<String>) -> (r: Result<(), String>) {
        if same(name, "--count") {
            self.count = true;
        } else if same(name, "--all") {
            self.all_references = true;
        } else if same(name, "-n") || same(name, "--max-count") {
            let n = match &value {
                Some(v) => parse_usize(v.as_str()),
                None => None,
            };
            match n {
                Some(n) => self.limit = n,
                None => return Err(copy_text("rev-list count must be a non-negative integer")),
            }
        } else {
            match count_option(name) {
                Some(n) => self.limit = n,
                None => return Err(join2("unsupported rev-list option: ", name)),
            }
        }
        Ok(())
    }
}

/// The ids of commits, a line for each.
pub open spec fn id_lines(v: Seq<Listed>) -> Seq<char>
    decreases v.len(),
{
    if v.len() == 0 {
        ""@
    } else {
        id_lines(v.drop_last()) + (v.last().0 + "\n"@)
    }
}

/// `git rev-list` in a repository.
pub open spec fn rev_list_within(m: Machine, s: Screen, root: Seq<char>, x: ListAsk, named: Seq<Seq<char>>) -> Done {
    let revisions = starting_points(m, root, named, x.all_references);
    match history_of(m, root, revisions, false) {
        None => ambiguous(m, s, joined(revisions, " "@)),
        Some(v) => {
            let part = portion(v, 0, x.limit as int, false);
            Done {
                m,
                s: printed(
                    s,
                    if x.count {
                        decimal(part.len()) + "\n"@
                    } else {
                        id_lines(part)
                    },
                ),
                status: 0,
            }
        },
    }
}

/// `git rev-list`.
pub open spec fn rev_list_done(m: Machine, s: Screen, args: Seq<Seq<char>>) -> Done {
    match repo_root(m) {
        None => no_repo(m, s),
        Some(root) => match words_read::<ListAsk>(pass_for(args, ""@, "n"@), plain_list(), seq![]) {
            Err(message) => misused(m, s, message),
            Ok((x, named)) => rev_list_within(m, s, root, x, named),
        },
    }
}

/// `git rev-list`: lists the ids of commits.
pub fn git_rev_list(system: &mut System, args: &[String], io: &mut Io) -> (r: i32)
    ensures
        done(final(system)@, final(io)@, r) == rev_list_done(old(system)@, old(io)@, texts(args@)),
{
    let root = match find_repo_root(system) {
        Some(root) => root,
        None => return repo_error(io),
    };
    let start = ListAsk { count: false, all_references: false, limit: MAX_LISTED };
    let (x, named) = match read_words(flags_for(args, "", "n"), start) {
        Ok(words) => words,
        Err(message) => return usage(io, message.as_str()),
    };
    let revisions = list_starting_points(
        system,
        root.as_str(),
        named.as_slice(),
        x.all_references,
    );
    let v = match history_for(system, root.as_str(), revisions.as_slice(), false) {
        Some(v) => v,
        None => return ambiguous_argument(io, join(revisions.as_slice(), " ").as_str()),
    };
    let n: usize = if x.limit < v.len() {
        x.limit
    } else {
        v.len()
    };
    let ghost all = listed(v@);
    let ghost part = portion(all, 0, x.limit as int, false);
    assert(all.skip(0) =~= all);
    assert(part =~= all.take(n as int));
    if x.count {
        io.print(join2(format_usize(n).as_str(), "\n").as_str());
        return 0;
    }
    let mut out = copy_text("");
    let mut i: usize = 0;
    while i < n
        invariant
            i <= n <= v@.len(),
            all == listed(v@),
            part == all.take(n as int),
            out@ == id_lines(part.take(i as int)),
        decreases n - i,
    {
        assert(part.take(i + 1).drop_last() =~= part.take(i as int));
        assert(part.take(i + 1).last() == all[i as int]);
        out.append(join2(v[i].0.as_str(), "\n").as_str());
        i += 1;
    }
    assert(part.take(i as int) =~= part);
    io.print(out.as_str());
    0
}

// ---------------------------------------------------------------------------
// git branch
// ---------------------------------------------------------------------------

/// Whether a character cannot stand in the name of a reference.
pub open spec fn unfit_in_name(c: char) -> bool {
    is_space(c) || c == '~' || c == '^' || c == ':' || c == '?' || c == '*' || c == '[' || c == '\\'
}

/// Whether a name can be the name of a reference.
pub open spec fn proper_name(s: Seq<char>) -> bool {
    &&& s.len() > 0
    &&& !starts(s, "-"@)
    &&& !starts(s, "/"@)
    &&& !ends(s, "/"@)
    &&& !holds(s, ".."@)
    &&& forall|i: int| 0 <= i < s.len() ==> !unfit_in_name(#[trigger] s[i])
}

/// Whether a name can be the name of a reference.
pub fn valid_reference_name(s: &str) -> (r: bool)
    ensures
        r == proper_name(s@),
{
    if s.is_empty() || starts_with(s, "-") || starts_with(s, "/") || ends_with(s, "/") || contains(
        s,
        "..",
    ) {
        return false;
    }
    let cs = chars_of(s);
    let mut i: usize = 0;
    while i < cs.len()
        invariant
            i <= cs@.len(),
            cs@ == s@,
            forall|k: int| 0 <= k < i ==> !unfit_in_name(#[trigger] cs@[k]),
        decreases cs@.len() - i,
    {
        let c = cs[i];
        if is_whitespace(c) || c == '~' || c == '^' || c == ':' || c == '?' || c == '*' || c == '['
            || c == '\\' {
            assert(unfit_in_name(s@[i as int]));
            return false;
        }
        i += 1;
    }
    true
}

/// Which branches are listed.
#[derive(Clone, Copy, PartialEq, Eq, Structural)]
pub enum BranchFilter {
    /// Those whose tip the named revision reaches.
    Merged,
    /// Those whose tip it does not reach.
    NotMerged,
    /// Those that reach the named revision.
    Contains,
}

/// What the options of `git branch` ask for.
pub struct BranchAsk {
    pub verbose: bool,
    pub delete: bool,
    pub rename: bool,
    pub force: bool,
    pub list: bool,
    pub filter: Option<(BranchFilter, String)>,
    pub format: Option<String>,
}

/// What is asked of `git branch`.
#[verifier::ext_equal]
pub struct BranchWish {
    pub verbose: bool,
    pub delete: bool,
    pub rename: bool,
    pub force: bool,
    pub list: bool,
    pub filter: Option<(BranchFilter, Seq<char>)>,
    pub format: Option<Seq<char>>,
}

/// What an optional filter says.
pub open spec fn opt_filter(o: Option<(BranchFilter, String)>) -> Option<(BranchFilter, Seq<char>)> {
    match o {
        Some((f, s)) => Some((f, s@)),
        None => None,
    }
}

impl View for BranchAsk {
    type V = BranchWish;

    open spec fn view(&self) -> BranchWish {
        BranchWish {
            verbose: self.verbose,
            delete: self.delete,
            rename: self.rename,
            force: self.force,
            list: self.list,
            filter: opt_filter(self.filter),
            format: opt_text(self.format),
        }
    }
}

/// What `git branch` is asked for without any option.
pub open spec fn plain_branch() -> BranchWish {
    BranchWish {
        verbose: false,
        delete: false,
        rename: false,
        force: false,
        list: false,
        filter: None,
        format: None,
    }
}

impl Talk for BranchAsk {
    open spec fn wants(name: Seq<char>) -> Want {
        if name == "--contains"@ || name == "--merged"@ || name == "--no-merged"@ {
            Want::Offered
        } else if name == "--format"@ || name == "--sort"@ {
            Want::Needed
        } else {
            Want::Attached
        }
    }

    open spec fn with(
        m: Machine,
        root: Seq<char>,
        asked: BranchWish,
        name: Seq<char>,
        value: Option<Seq<char>>,
    ) -> Result<BranchWish, Stop> {
        if name == "--show-current"@ {
            Err(
                Stop::Said(
                    match branch_of(m, root) {
                        Some(b) => b + "\n"@,
                        None => ""@,
                    },
                ),
            )
        } else if name == "-v"@ || name == "--verbose"@ {
            Ok(BranchWish { verbose: true, ..asked })
        } else if name == "-d"@ || name == "--delete"@ {
            Ok(BranchWish { delete: true, ..asked })
        } else if name == "-D"@ {
            Ok(BranchWish { delete: true, force: true, ..asked })
        } else if name == "-m"@ || name == "--move"@ {
            Ok(BranchWish { rename: true, ..asked })
        } else if name == "-M"@ {
            Ok(BranchWish { rename: true, force: true, ..asked })
        } else if name == "-f"@ || name == "--force"@ {
            Ok(BranchWish { force: true, ..asked })
        } else if name == "-l"@ || name == "--list"@ {
            Ok(BranchWish { list: true, ..asked })
        } else if name == "--contains"@ || name == "--merged"@ || name == "--no-merged"@ {
            let filter = if name == "--contains"@ {
                BranchFilter::Contains
            } else if name == "--no-merged"@ {
                BranchFilter::NotMerged
            } else {
                BranchFilter::Merged
            };
            let rev = match value {
                Some(v) => v,
                None => "HEAD"@,
            };
            Ok(BranchWish { filter: Some((filter, rev)), list: true, ..asked })
        } else if name == "-r"@ || name == "--remotes"@ {
            Err(Stop::Said(""@))
        } else if name == "-a"@ || name == "--all"@ || name == "--no-color"@ || name
            == "--no-column"@ {
            Ok(BranchWish { list: true, ..asked })
        } else if name == "-q"@ || name == "--quiet"@ {
            Ok(asked)
        } else if name == "--format"@ {
            Ok(BranchWish { format: value, list: true, ..asked })
        } else if name == "--sort"@ {
            Ok(BranchWish { list: true, ..asked })
        } else {
            Err(Stop::Wrong("unsupported branch option: "@ + name))
        }
    }

    fn wanted(name: &str) -> (r: Want) {
        if same(name, "--contains") || same(name, "--merged") || same(name, "--no-merged") {
            Want::Offered
        } else if same(name, "--format") || same(name, "--sort") {
            Want::Needed
        } else {
            Want::Attached
        }
    }

    fn apply(&mut self, system: &System, root: &str, name: &str, value: Option<String>) -> (r: Result<
        (),
        Halt,
    >) {
        if same(name, "--show-current") {
            return Err(
                Halt::Said(
                    match current_branch(system, root) {
                        Some(b) => join2(b.as_str(), "\n"),
                        None => copy_text(""),
                    },
                ),
            );
        } else if same(name, "-v") || same(name, "--verbose") {
            self.verbose = true;
        } else if same(name, "-d") || same(name, "--delete") {
            self.delete = true;
        } else if same(name, "-D") {
            self.delete = true;
            self.force = true;
        } else if same(name, "-m") || same(name, "--move") {
            self.rename = true;
        } else if same(name, "-M") {
            self.rename = true;
            self.force = true;
        } else if same(name, "-f") || same(name, "--force") {
            self.force = true;
        } else if same(name, "-l") || same(name, "--list") {
            self.list = true;
        } else if same(name, "--contains") || same(name, "--merged") || same(name, "--no-merged") {
            let filter = if same(name, "--contains") {
                BranchFilter::Contains
            } else if same(name, "--no-merged") {
                BranchFilter::NotMerged
            } else {
                BranchFilter::Merged
            };
            let rev = match value {
                Some(v) => v,
                None => copy_text("HEAD"),
            };
            self.filter = Some((filter, rev));
            self.list = true;
        } else if same(name, "-r") || same(name, "--remotes") {
            return Err(Halt::Said(copy_text("")));
        } else if same(name, "-a") || same(name, "--all") || same(name, "--no-color") || same(
            name,
            "--no-column",
        ) {
            self.list = true;
        } else if same(name, "-q") || same(name, "--quiet") {
        } else if same(name, "--format") {
            self.format = value;
            self.list = true;
        } else if same(name, "--sort") {
            self.list = true;
        } else {
            return Err(Halt::Wrong(join2("unsupported branch option: ", name)));
        }
        Ok(())
    }
}

/// Whether a branch passes a filter.
pub open spec fn filter_passed(
    m: Machine,
    root: Seq<char>,
    branch: Seq<char>,
    filter: Option<(BranchFilter, Seq<char>)>,
) -> bool {
    match filter {
        None => true,
        Some((f, rev)) => match (
            revision(m, root, rev),
            reference_of(m, root, "refs/heads/"@ + branch),
        ) {
            (Some(target), Some(tip)) => match f {
                BranchFilter::Merged => within(ancestry(m, root, target), tip),
                BranchFilter::NotMerged => !within(ancestry(m, root, target), tip),
                BranchFilter::Contains => within(ancestry(m, root, tip), target),
            },
            _ => false,
        },
    }
}

/// Whether a branch passes a filter.
pub fn branch_selected(
    system: &System,
    root: &str,
    branch: &str,
    filter: &Option<(BranchFilter, String)>,
) -> (r: bool)
    ensures
        r == filter_passed(system@, root@, branch@, opt_filter(*filter)),
{
    match filter {
        None => true,
        Some((f, rev)) => {
            let target = match resolve_revision(system, root, rev.as_str()) {
                Some(id) => id,
                None => return false,
            };
            let tip = match read_reference(
                system,
                root,
                join2("refs/heads/", branch).as_str(),
            ) {
                Some(id) => id,
                None => return false,
            };
            match f {
                BranchFilter::Merged => ancestors(system, root, target.as_str()).contains_key(
                    tip.as_str(),
                ),
                BranchFilter::NotMerged => !ancestors(system, root, target.as_str()).contains_key(
                    tip.as_str(),
                ),
                BranchFilter::Contains => ancestors(system, root, tip.as_str()).contains_key(
                    target.as_str(),
                ),
            }
        },
    }
}

/// Whether a name fits a pattern, where there is one.
pub open spec fn fits(pattern: Option<Seq<char>>, name: Seq<char>) -> bool {
    match pattern {
        Some(p) => wildcard(p, name),
        None => true,
    }
}

/// Whether a name fits a pattern, where there is one.
pub fn does_fit(pattern: &Option<String>, name: &str) -> (r: bool)
    ensures
        r == fits(opt_text(*pattern), name@),
{
    match pattern {
        Some(p) => glob_eq(p.as_str(), name),
        None => true,
    }
}

/// The most bytes that a name of a list takes.
pub open spec fn widest(v: Seq<Seq<char>>) -> nat
    decreases v.len(),
{
    if v.len() == 0 {
        0
    } else {
        let w = widest(v.drop_last());
        let n = encode_utf8(v.last()).len();
        if n > w {
            n
        } else {
            w
        }
    }
}

fn find_widest(v: &[String]) -> (r: usize)
    ensures
        r == widest(texts(v@)),
{
    let ghost all = texts(v@);
    let mut w: usize = 0;
    let mut i: usize = 0;
    while i < v.len()
        invariant
            i <= v@.len(),
            all == texts(v@),
            w == widest(all.take(i as int)),
        decreases v@.len() - i,
    {
        assert(all.take(i + 1).drop_last() =~= all.take(i as int));
        assert(all.take(i + 1).last() == v@[i as int]@);
        let n: usize = v[i].as_str().as_bytes().len();
        if n > w {
            w = n;
        }
        i += 1;
    }
    assert(all.take(i as int) =~= all);
    w
}

/// What stands for a HEAD that is on no branch.
pub open spec fn detached_label(m: Machine, root: Seq<char>) -> Option<Seq<char>> {
    match (branch_of(m, root), head_id(m, root)) {
        (None, Some(id)) => Some("(HEAD detached at "@ + short_id(id) + ")"@),
        _ => None,
    }
}

/// The width of the column of names.
pub open spec fn name_width(m: Machine, root: Seq<char>) -> nat {
    match detached_label(m, root) {
        Some(label) => widest(branches(m, root).push(label)),
        None => widest(branches(m, root)),
    }
}

/// The id and the subject of a commit.
pub open spec fn tip_summary(m: Machine, root: Seq<char>, id: Option<Seq<char>>) -> Seq<char> {
    match id {
        Some(id) => short_id(id) + " "@ + subject_at(m, root, id),
        None => ""@,
    }
}

/// The line of one name.
pub open spec fn name_line(
    m: Machine,
    root: Seq<char>,
    mark: Seq<char>,
    name: Seq<char>,
    id: Option<Seq<char>>,
    width: nat,
    verbose: bool,
) -> Seq<char> {
    if verbose {
        mark + pad_right(name, ' ', width as int) + " "@ + tip_summary(m, root, id) + "\n"@
    } else {
        mark + name + "\n"@
    }
}

/// The lines of branches.
pub open spec fn branch_lines(
    m: Machine,
    root: Seq<char>,
    pattern: Option<Seq<char>>,
    x: BranchWish,
    names: Seq<Seq<char>>,
) -> Seq<char>
    decreases names.len(),
{
    if names.len() == 0 {
        ""@
    } else {
        let head = branch_lines(m, root, pattern, x, names.drop_last());
        let b = names.last();
        if !fits(pattern, b) || !filter_passed(m, root, b, x.filter) {
            head
        } else {
            head + name_line(
                m,
                root,
                if branch_of(m, root) == Some(b) {
                    "* "@
                } else {
                    "  "@
                },
                b,
                reference_of(m, root, "refs/heads/"@ + b),
                name_width(m, root),
                x.verbose,
            )
        }
    }
}

/// The list of branches. A HEAD that is on no branch comes first.
pub open spec fn branch_list(m: Machine, root: Seq<char>, pattern: Option<Seq<char>>, x: BranchWish) -> Seq<char> {
    (match detached_label(m, root) {
        Some(label) => if pattern is None {
            name_line(m, root, "* "@, label, head_id(m, root), name_width(m, root), x.verbose)
        } else {
            ""@
        },
        None => ""@,
    }) + branch_lines(m, root, pattern, x, branches(m, root))
}

fn render_name(
    system: &System,
    root: &str,
    mark: &str,
    name: &str,
    id: &Option<String>,
    width: usize,
    verbose: bool,
) -> (r: String)
    ensures
        r@ == name_line(
            system@,
            root@,
            mark@,
            name@,
            opt_text(*id),
            width as nat,
            verbose,
        ),
{
    if !verbose {
        return join3(mark, name, "\n");
    }
    let summary = match id {
        Some(id) => join3(
            short(id.as_str()).as_str(),
            " ",
            subject_of_commit(system, root, id.as_str()).as_str(),
        ),
        None => copy_text(""),
    };
    join5(mark, padded_right(name, ' ', width).as_str(), " ", summary.as_str(), "\n")
}

fn is_branch(current: &Option<String>, name: &str) -> (r: bool)
    ensures
        r == (opt_text(*current) == Some(name@)),
{
    match current {
        Some(b) => same(b.as_str(), name),
        None => false,
    }
}

fn find_detached(system: &System, root: &str) -> (r: Option<String>)
    ensures
        opt_text(r) == detached_label(system@, root@),
{
    match (current_branch(system, root), head_commit(system, root)) {
        (None, Some(id)) => Some(join3("(HEAD detached at ", short(id.as_str()).as_str(), ")")),
        _ => None,
    }
}

fn list_branches(system: &System, root: &str, pattern: &Option<String>, x: &BranchAsk) -> (r: String)
    ensures
        r@ == branch_list(system@, root@, opt_text(*pattern), x@),
{
    broadcast use lemma_texts_push;

    let names = branch_names(system, root);
    let current = current_branch(system, root);
    let label = find_detached(system, root);
    let width: usize = match &label {
        Some(l) => {
            let mut all = crate::text::copy_texts(names.as_slice());
            all.push(copy_text(l.as_str()));
            find_widest(all.as_slice())
        },
        None => find_widest(names.as_slice()),
    };
    assert(width == name_width(system@, root@));
    let mut out = match &label {
        Some(l) => if pattern.is_none() {
            render_name(
                system,
                root,
                "* ",
                l.as_str(),
                &head_commit(system, root),
                width,
                x.verbose,
            )
        } else {
            copy_text("")
        },
        None => copy_text(""),
    };
    let ghost front = out@;
    let ghost all = texts(names@);
    let mut tail = copy_text("");
    let mut i: usize = 0;
    while i < names.len()
        invariant
            i <= names@.len(),
            all == texts(names@),
            opt_text(current) == branch_of(system@, root@),
            width == name_width(system@, root@),
            tail@ == branch_lines(system@, root@, opt_text(*pattern), x@, all.take(i as int)),
        decreases names@.len() - i,
    {
        assert(all.take(i + 1).drop_last() =~= all.take(i as int));
        assert(all.take(i + 1).last() == names@[i as int]@);
        let name = names[i].as_str();
        if does_fit(pattern, name) && branch_selected(system, root, name, &x.filter) {
            let mark = if is_branch(&current, name) {
                "* "
            } else {
                "  "
            };
            let tip = read_reference(system, root, join2("refs/heads/", name).as_str());
            tail.append(render_name(system, root, mark, name, &tip, width, x.verbose).as_str());
        }
        i += 1;
    }
    assert(all.take(i as int) =~= all);
    out.append(tail.as_str());
    out
}

/// Printing branches through a template, from `i` on.
pub open spec fn formatted_from(
    m: Machine,
    s: Screen,
    root: Seq<char>,
    pattern: Option<Seq<char>>,
    format: Seq<char>,
    names: Seq<Seq<char>>,
    i: int,
) -> Done
    decreases names.len() - i,
{
    if i < 0 || i >= names.len() {
        Done { m, s, status: 0 }
    } else {
        let full = "refs/heads/"@ + names[i];
        if !fits(pattern, names[i]) {
            formatted_from(m, s, root, pattern, format, names, i + 1)
        } else {
            match reference_of(m, root, full) {
                None => formatted_from(m, s, root, pattern, format, names, i + 1),
                Some(id) => match ref_text(format, full, id) {
                    None => misused(m, s, "unsupported branch format: "@ + format),
                    Some(line) => formatted_from(
                        m,
                        printed(s, line + "\n"@),
                        root,
                        pattern,
                        format,
                        names,
                        i + 1,
                    ),
                },
            }
        }
    }
}

fn list_formatted_branches(
    system: &System,
    root: &str,
    pattern: &Option<String>,
    format: &str,
    io: &mut Io,
) -> (r: i32)
    ensures
        done(system@, final(io)@, r) == formatted_from(
            system@,
            old(io)@,
            root@,
            opt_text(*pattern),
            format@,
            branches(system@, root@),
            0,
        ),
{
    let names = branch_names(system, root);
    let ghost all = texts(names@);
    let ghost p = opt_text(*pattern);
    let ghost goal = formatted_from(system@, io@, root@, p, format@, all, 0);
    let mut i: usize = 0;
    while i < names.len()
        invariant
            i <= names@.len(),
            all == texts(names@),
            all == branches(system@, root@),
            p == opt_text(*pattern),
            goal == formatted_from(system@, old(io)@, root@, p, format@, all, 0),
            goal == formatted_from(system@, io@, root@, p, format@, all, i as int),
        decreases names@.len() - i,
    {
        assert(all.len() == names@.len());
        assert(all[i as int] == names@[i as int]@);
        if does_fit(pattern, names[i].as_str()) {
            let full = join2("refs/heads/", names[i].as_str());
            if let Some(id) = read_reference(system, root, full.as_str()) {
                match expand_ref_format(format, full.as_str(), id.as_str()) {
                    None => {
                        return usage(io, join2("unsupported branch format: ", format).as_str());
                    },
                    Some(line) => {
                        io.print(join2(line.as_str(), "\n").as_str());
                    },
                }
            }
        }
        i += 1;
    }
    0
}

/// Deleting a branch. Without force, a branch that HEAD does not reach is kept.
pub open spec fn branch_deleted(m: Machine, s: Screen, root: Seq<char>, name: Seq<char>, force: bool) -> Done {
    let full = "refs/heads/"@ + name;
    let missing = complained(s, "error: branch '"@ + name + "' not found\n"@);
    if branch_of(m, root) == Some(name) {
        Done {
            m,
            s: complained(s, "error: cannot delete branch '"@ + name + "' checked out\n"@),
            status: 1,
        }
    } else {
        match reference_of(m, root, full) {
            None => Done { m, s: missing, status: 1 },
            Some(id) => if !force && !(head_id(m, root) is Some && within(
                ancestry(m, root, head_id(m, root)->0),
                id,
            )) {
                Done {
                    m,
                    s: complained(
                        s,
                        "error: the branch '"@ + name
                            + "' is not fully merged; use -D to delete it\n"@,
                    ),
                    status: 1,
                }
            } else {
                match reference_deleted(m, root, full) {
                    (n, Err(_)) => Done { m: n, s: missing, status: 1 },
                    (n, Ok(())) => Done {
                        m: n,
                        s: printed(
                            s,
                            "Deleted branch "@ + name + " (was "@ + short_id(id) + ").\n"@,
                        ),
                        status: 0,
                    },
                }
            },
        }
    }
}

/// Removing a reference.
pub open spec fn reference_deleted(m: Machine, root: Seq<char>, name: Seq<char>) -> (
    Machine,
    Result<(), Refusal>,
) {
    crate::system::settled(m, crate::system::without_file(m.files, git_file(root, name)))
}

/// Deleting branches from `i` on. The first that cannot be deleted ends it.
pub open spec fn branches_deleted(
    m: Machine,
    s: Screen,
    root: Seq<char>,
    names: Seq<Seq<char>>,
    i: int,
    force: bool,
) -> Done
    decreases names.len() - i,
{
    if i < 0 || i >= names.len() {
        Done { m, s, status: 0 }
    } else {
        let d = branch_deleted(m, s, root, names[i], force);
        if d.status != 0 {
            d
        } else {
            branches_deleted(d.m, d.s, root, names, i + 1, force)
        }
    }
}

fn delete_branch(system: &mut System, root: &str, name: &str, force: bool, io: &mut Io) -> (r: i32)
    ensures
        done(final(system)@, final(io)@, r) == branch_deleted(
            old(system)@,
            old(io)@,
            root@,
            name@,
            force,
        ),
{
    if is_branch(&current_branch(system, root), name) {
        io.print_err(join3("error: cannot delete branch '", name, "' checked out\n").as_str());
        return 1;
    }
    let full = join2("refs/heads/", name);
    let id = match read_reference(system, root, full.as_str()) {
        Some(id) => id,
        None => {
            io.print_err(join3("error: branch '", name, "' not found\n").as_str());
            return 1;
        },
    };
    if !force {
        let reached = match head_commit(system, root) {
            Some(head) => ancestors(system, root, head.as_str()).contains_key(id.as_str()),
            None => false,
        };
        if !reached {
            io.print_err(
                join3(
                    "error: the branch '",
                    name,
                    "' is not fully merged; use -D to delete it\n",
                ).as_str(),
            );
            return 1;
        }
    }
    match delete_reference(system, root, full.as_str()) {
        Ok(()) => {},
        Err(_) => {
            io.print_err(join3("error: branch '", name, "' not found\n").as_str());
            return 1;
        },
    }
    io.print(
        join5(
            "Deleted branch ",
            name,
            " (was ",
            short(id.as_str()).as_str(),
            ").\n",
        ).as_str(),
    );
    0
}

fn delete_branches(system: &mut System, root: &str, names: &[String], force: bool, io: &mut Io) -> (r: i32)
    ensures
        done(final(system)@, final(io)@, r) == branches_deleted(
            old(system)@,
            old(io)@,
            root@,
            texts(names@),
            0,
            force,
        ),
{
    let ghost all = texts(names@);
    let ghost goal = branches_deleted(system@, io@, root@, all, 0, force);
    let mut i: usize = 0;
    while i < names.len()
        invariant
            i <= names@.len(),
            all == texts(names@),
            goal == branches_deleted(old(system)@, old(io)@, root@, all, 0, force),
            goal == branches_deleted(system@, io@, root@, all, i as int, force),
        decreases names@.len() - i,
    {
        assert(all.len() == names@.len());
        assert(all[i as int] == names@[i as int]@);
        let status = delete_branch(system, root, names[i].as_str(), force, io);
        if status != 0 {
            return status;
        }
        i += 1;
    }
    0
}

/// Renaming a branch.
pub open spec fn branch_renamed(
    m: Machine,
    s: Screen,
    root: Seq<char>,
    from: Seq<char>,
    to: Seq<char>,
    force: bool,
) -> Done {
    let source = "refs/heads/"@ + from;
    let target = "refs/heads/"@ + to;
    if !proper_name(to) {
        failed(m, s, "invalid branch name: "@ + to)
    } else {
        match reference_of(m, root, source) {
            None => Done {
                m,
                s: complained(s, "error: branch '"@ + from + "' not found\n"@),
                status: 1,
            },
            Some(id) => if !force && reference_of(m, root, target) is Some {
                failed(m, s, "a branch named '"@ + to + "' already exists"@)
            } else {
                match reference_written(m, root, target, id) {
                    (m1, Err(e)) => failed(m1, s, write_message(target, e)),
                    (m1, Ok(())) => match reference_deleted(m1, root, source) {
                        (m2, Err(e)) => failed(m2, s, write_message(source, e)),
                        (m2, Ok(())) => if branch_of(m2, root) == Some(from) {
                            match head_on_branch(m2, root, to, "branch: renamed to "@ + to) {
                                (m3, Err(e)) => failed(m3, s, write_message("HEAD"@, e)),
                                (m3, Ok(())) => Done { m: m3, s, status: 0 },
                            }
                        } else {
                            Done { m: m2, s, status: 0 }
                        },
                    },
                }
            },
        }
    }
}

fn rename_branch(system: &mut System, root: &str, from: &str, to: &str, force: bool, io: &mut Io) -> (r: i32)
    ensures
        done(final(system)@, final(io)@, r) == branch_renamed(
            old(system)@,
            old(io)@,
            root@,
            from@,
            to@,
            force,
        ),
{
    if !valid_reference_name(to) {
        return fatal(io, join2("invalid branch name: ", to).as_str());
    }
    let source = join2("refs/heads/", from);
    let target = join2("refs/heads/", to);
    let id = match read_reference(system, root, source.as_str()) {
        Some(id) => id,
        None => {
            io.print_err(join3("error: branch '", from, "' not found\n").as_str());
            return 1;
        },
    };
    if !force && read_reference(system, root, target.as_str()).is_some() {
        return fatal(io, join3("a branch named '", to, "' already exists").as_str());
    }
    match write_reference(system, root, target.as_str(), id.as_str()) {
        Ok(()) => {},
        Err(e) => return cannot_write(io, target.as_str(), &e),
    }
    match delete_reference(system, root, source.as_str()) {
        Ok(()) => {},
        Err(e) => return cannot_write(io, source.as_str(), &e),
    }
    if is_branch(&current_branch(system, root), from) {
        match set_head_to_branch(
            system,
            root,
            to,
            join2("branch: renamed to ", to).as_str(),
        ) {
            Ok(()) => {},
            Err(e) => return cannot_write(io, "HEAD", &e),
        }
    }
    0
}

/// Creating a branch.
pub open spec fn branch_created(
    m: Machine,
    s: Screen,
    root: Seq<char>,
    v: Seq<Seq<char>>,
    force: bool,
) -> Done {
    if v.len() == 0 || v.len() > 2 || !proper_name(v[0]) {
        misused(m, s, "usage: git branch NAME [START_POINT]"@)
    } else {
        let start = if v.len() == 2 {
            v[1]
        } else {
            "HEAD"@
        };
        let full = "refs/heads/"@ + v[0];
        match revision(m, root, start) {
            None => failed(m, s, "not a valid object name: '"@ + start + "'"@),
            Some(id) => if !force && reference_of(m, root, full) is Some {
                failed(m, s, "a branch named '"@ + v[0] + "' already exists"@)
            } else {
                match reference_written(m, root, full, id) {
                    (n, Ok(())) => Done { m: n, s, status: 0 },
                    (n, Err(e)) => Done {
                        m: n,
                        s: complained(s, "git branch: "@ + refusal_text(e) + "\n"@),
                        status: 1,
                    },
                }
            },
        }
    }
}

fn create_branch(system: &mut System, root: &str, v: &[String], force: bool, io: &mut Io) -> (r: i32)
    ensures
        done(final(system)@, final(io)@, r) == branch_created(
            old(system)@,
            old(io)@,
            root@,
            texts(v@),
            force,
        ),
{
    let ghost all = texts(v@);
    let n: usize = v.len();
    assert(all.len() == n);
    assert(forall|k: int| 0 <= k < n ==> all[k] == #[trigger] v@[k]@);
    if n == 0 || n > 2 || !valid_reference_name(v[0].as_str()) {
        return usage(io, "usage: git branch NAME [START_POINT]");
    }
    let start = if n == 2 {
        v[1].as_str()
    } else {
        "HEAD"
    };
    let id = match resolve_revision(system, root, start) {
        Some(id) => id,
        None => return fatal(io, join3("not a valid object name: '", start, "'").as_str()),
    };
    let full = join2("refs/heads/", v[0].as_str());
    if !force && read_reference(system, root, full.as_str()).is_some() {
        return fatal(io, join3("a branch named '", v[0].as_str(), "' already exists").as_str());
    }
    match write_reference(system, root, full.as_str(), id.as_str()) {
        Ok(()) => 0,
        Err(e) => {
            io.print_err(join3("git branch: ", e.message().as_str(), "\n").as_str());
            1
        },
    }
}

/// The first of a list, where there is one.
pub open spec fn first_of(v: Seq<Seq<char>>) -> Option<Seq<char>> {
    if v.len() > 0 {
        Some(v[0])
    } else {
        None
    }
}

/// The first of a list, where there is one.
pub fn take_first(v: &[String]) -> (r: Option<String>)
    ensures
        opt_text(r) == first_of(texts(v@)),
{
    assert(texts(v@).len() == v@.len());
    if v.len() > 0 {
        assert(texts(v@)[0] == v@[0]@);
        Some(copy_text(v[0].as_str()))
    } else {
        None
    }
}

/// `git branch` in a repository.
pub open spec fn branch_within(m: Machine, s: Screen, root: Seq<char>, x: BranchWish, v: Seq<Seq<char>>) -> Done {
    if x.delete {
        if v.len() == 0 {
            misused(m, s, "usage: git branch (-d|-D) NAME..."@)
        } else {
            branches_deleted(m, s, root, v, 0, x.force)
        }
    } else if x.rename {
        if v.len() == 1 {
            match branch_of(m, root) {
                Some(b) => branch_renamed(m, s, root, b, v[0], x.force),
                None => failed(m, s, "cannot rename a detached HEAD"@),
            }
        } else if v.len() == 2 {
            branch_renamed(m, s, root, v[0], v[1], x.force)
        } else {
            misused(m, s, "usage: git branch -m [OLD] NEW"@)
        }
    } else if v.len() == 0 || x.list {
        match x.format {
            Some(format) => formatted_from(
                m,
                s,
                root,
                first_of(v),
                format,
                branches(m, root),
                0,
            ),
            None => Done {
                m,
                s: printed(s, branch_list(m, root, first_of(v), x)),
                status: 0,
            },
        }
    } else {
        branch_created(m, s, root, v, x.force)
    }
}

/// `git branch`.
pub open spec fn branch_done(m: Machine, s: Screen, args: Seq<Seq<char>>) -> Done {
    match repo_root(m) {
        None => no_repo(m, s),
        Some(root) => match talk_read::<BranchAsk>(
            m,
            root,
            pass_for(args, "avdfqlr"@, ""@),
            plain_branch(),
            seq![],
        ) {
            Err(e) => stopped(m, s, e),
            Ok((x, v)) => branch_within(m, s, root, x, v),
        },
    }
}

fn act_on_branches(system: &mut System, root: &str, x: &BranchAsk, v: &[String], io: &mut Io) -> (r: i32)
    ensures
        done(final(system)@, final(io)@, r) == branch_within(
            old(system)@,
            old(io)@,
            root@,
            x@,
            texts(v@),
        ),
{
    let ghost all = texts(v@);
    let n: usize = v.len();
    assert(all.len() == n);
    assert(forall|k: int| 0 <= k < n ==> all[k] == #[trigger] v@[k]@);
    if x.delete {
        if n == 0 {
            return usage(io, "usage: git branch (-d|-D) NAME...");
        }
        return delete_branches(system, root, v, x.force, io);
    }
    if x.rename {
        if n == 1 {
            return match current_branch(system, root) {
                Some(b) => rename_branch(system, root, b.as_str(), v[0].as_str(), x.force, io),
                None => fatal(io, "cannot rename a detached HEAD"),
            };
        }
        if n == 2 {
            return rename_branch(system, root, v[0].as_str(), v[1].as_str(), x.force, io);
        }
        return usage(io, "usage: git branch -m [OLD] NEW");
    }
    if n == 0 || x.list {
        let pattern = take_first(v);
        if let Some(format) = &x.format {
            return list_formatted_branches(system, root, &pattern, format.as_str(), io);
        }
        io.print(list_branches(system, root, &pattern, x).as_str());
        return 0;
    }
    create_branch(system, root, v, x.force, io)
}

/// `git branch`: lists, creates, deletes and renames branches.
pub fn git_branch(system: &mut System, args: &[String], io: &mut Io) -> (r: i32)
    ensures
        done(final(system)@, final(io)@, r) == branch_done(old(system)@, old(io)@, texts(args@)),
{
    let root = match find_repo_root(system) {
        Some(root) => root,
        None => return repo_error(io),
    };
    let start = BranchAsk {
        verbose: false,
        delete: false,
        rename: false,
        force: false,
        list: false,
        filter: None,
        format: None,
    };
    assert(start@ =~= plain_branch());
    let (x, v) = match read_talk(system, root.as_str(), flags_for(args, "avdfqlr", ""), start) {
        Ok(words) => words,
        Err(e) => {
            assert(stopped(system@, io@, e@).m == system@);
            return e.report(io);
        },
    };
    act_on_branches(system, root.as_str(), &x, v.as_slice(), io)
}

/// The branch that is checked out is never deleted.
pub proof fn lemma_current_branch_stays(m: Machine, s: Screen, root: Seq<char>, name: Seq<char>, force: bool)
    requires
        branch_of(m, root) == Some(name),
    ensures
        branch_deleted(m, s, root, name, force).m == m,
        branch_deleted(m, s, root, name, force).status == 1,
{
}

/// Without force, a branch that HEAD does not reach is never deleted.
pub proof fn lemma_unmerged_branch_stays(m: Machine, s: Screen, root: Seq<char>, name: Seq<char>, id: Seq<char>)
    requires
        reference_of(m, root, "refs/heads/"@ + name) == Some(id),
        head_id(m, root) is Some ==> !within(ancestry(m, root, head_id(m, root)->0), id),
    ensures
        branch_deleted(m, s, root, name, false).m == m,
        branch_deleted(m, s, root, name, false).status == 1,
{
}

} // verus!
