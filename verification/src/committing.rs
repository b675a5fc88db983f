//! `git commit`: turning the staged tree into a new commit.

use vstd::prelude::*;

use crate::bytes::{decode_lossy, loose_text};
use crate::common::{
    any_matches, done, index_needed, parent_needed, parent_tree, pathspecs, pathspecs_of, require_index,
    require_tree, some_matches, tree_needed,
};
use crate::compare::{
    as_bytes, changed_paths, compare_trees, comparison, list_changed, options_of, read_stored, shape_of,
    stored_content, summary_line, summary_text, Format,
};
use crate::configuration::{identity, identity_of, Globals, Overrides};
use crate::console::{
    cannot_write, complained, failed, fatal, misused, no_repo, printed, repo_error, usage, write_message, Done, Io,
    Screen,
};
use crate::dates::{clock_seconds, date_text, format_date, now_seconds, parse_date, read_date};
use crate::diff::{change_counts, counted, file_script, Op};
use crate::history::Listed;
use crate::names::same_tree;
use crate::objects::{short, short_id};
use crate::order::{bind, lookup, Duplicate, OrdMap};
use crate::progress::{pending, pending_operation};
use crate::records::{subject_of, Commit, Note};
use crate::repo::{
    branch_of, commit_id, commit_of, commit_stored, current_branch, find_repo_root, head_commit, head_files,
    head_id, head_tree, head_updated, load_commit, read_all, readable, repo_root, store_commit, update_head,
};
use crate::stages::{clear, cleared, conflicts_of, load_stages, message_pending, pending_message};
use crate::staging::{add_done, changes_staged, git_add, stage_tracked_changes};
use crate::status::{git_status, status_done};
use crate::syntax::{flags_for, pass_for, read_words, words_read, Syntax, Want};
use crate::system::{refusal_text, resolve_against, resolved, Machine, System};
use crate::text::{
    before_suffix, copy_text, copy_texts, join, join2, join3, join4, join5, joined, lemma_texts_push, opt_pair,
    opt_text, rcut_once_text, rsplit_once_text, same, strip_suffix, texts, trim_end, trimmed_end,
};
use crate::trees::{Files, Tree};

verus! {

/// The largest file that a message is read from.
pub const MAX_MESSAGE_BYTES: usize = 1_048_576;

/// What the options of `git commit` ask for.
pub struct CommitAsk {
    pub messages: Vec<String>,
    pub message_file: Option<String>,
    pub stage_tracked: bool,
    pub amend: bool,
    pub allow_empty: bool,
    pub quiet: bool,
    pub dry_run: bool,
    pub signoff: bool,
    pub author: Option<String>,
}

/// What is asked of `git commit`.
#[verifier::ext_equal]
pub struct CommitWish {
    pub messages: Seq<Seq<char>>,
    pub message_file: Option<Seq<char>>,
    pub stage_tracked: bool,
    pub amend: bool,
    pub allow_empty: bool,
    pub quiet: bool,
    pub dry_run: bool,
    pub signoff: bool,
    pub author: Option<Seq<char>>,
}

impl View for CommitAsk {
    type V = CommitWish;

    open spec fn view(&self) -> CommitWish {
        CommitWish {
            messages: texts(self.messages@),
            message_file: opt_text(self.message_file),
            stage_tracked: self.stage_tracked,
            amend: self.amend,
            allow_empty: self.allow_empty,
            quiet: self.quiet,
            dry_run: self.dry_run,
            signoff: self.signoff,
            author: opt_text(self.author),
        }
    }
}

/// What `git commit` is asked for without any option.
pub open spec fn plain_commit() -> CommitWish {
    CommitWish {
        messages: seq![],
        message_file: None,
        stage_tracked: false,
        amend: false,
        allow_empty: false,
        quiet: false,
        dry_run: false,
        signoff: false,
        author: None,
    }
}

impl Syntax for CommitAsk {
    open spec fn wants(name: Seq<char>) -> Want {
        if name == "-m"@ || name == "--message"@ || name == "-F"@ || name == "--file"@ || name
            == "--author"@ {
            Want::Needed
        } else {
            Want::Attached
        }
    }

    open spec fn with(asked: CommitWish, name: Seq<char>, value: Option<Seq<char>>) -> Result<
        CommitWish,
        Seq<char>,
    > {
        if name == "-m"@ || name == "--message"@ {
            match value {
                Some(v) => Ok(CommitWish { messages: asked.messages.push(v), ..asked }),
                None => Err("-m requires a message"@),
            }
        } else if name == "-F"@ || name == "--file"@ {
            match value {
                Some(v) => Ok(CommitWish { message_file: Some(v), ..asked }),
                None => Err("-F requires a file"@),
            }
        } else if name == "--author"@ {
            match value {
                Some(v) => Ok(CommitWish { author: Some(v), ..asked }),
                None => Err("--author requires a name"@),
            }
        } else if name == "-a"@ || name == "--all"@ {
            Ok(CommitWish { stage_tracked: true, ..asked })
        } else if name == "--amend"@ {
            Ok(CommitWish { amend: true, ..asked })
        } else if name == "--allow-empty"@ || name == "--allow-empty-message"@ {
            Ok(CommitWish { allow_empty: true, ..asked })
        } else if name == "-q"@ || name == "--quiet"@ {
            Ok(CommitWish { quiet: true, ..asked })
        } else if name == "--dry-run"@ {
            Ok(CommitWish { dry_run: true, ..asked })
        } else if name == "-s"@ || name == "--signoff"@ {
            Ok(CommitWish { signoff: true, ..asked })
        } else if name == "-n"@ || name == "--no-verify"@ || name == "-v"@ || name == "--verbose"@
            || name == "--no-edit"@ || name == "--no-gpg-sign"@ {
            Ok(asked)
        } else {
            Err("unsupported commit option: "@ + name)
        }
    }

    fn wanted(name: &str) -> (r: Want) {
        if same(name, "-m") || same(name, "--message") || same(name, "-F") || same(name, "--file")
            || same(name, "--author") {
            Want::Needed
        } else {
            Want::Attached
        }
    }

    fn apply(&mut self, name: &str, value: Option<String>) -> (r: Result<(), String>) {
        broadcast use lemma_texts_push;

        if same(name, "-m") || same(name, "--message") {
            match value {
                Some(v) => self.messages.push(v),
                None => return Err(copy_text("-m requires a message")),
            }
        } else if same(name, "-F") || same(name, "--file") {
            match value {
                Some(v) => self.message_file = Some(v),
                None => return Err(copy_text("-F requires a file")),
            }
        } else if same(name, "--author") {
            match value {
                Some(v) => self.author = Some(v),
                None => return Err(copy_text("--author requires a name")),
            }
        } else if same(name, "-a") || same(name, "--all") {
            self.stage_tracked = true;
        } else if same(name, "--amend") {
            self.amend = true;
        } else if same(name, "--allow-empty") || same(name, "--allow-empty-message") {
            self.allow_empty = true;
        } else if same(name, "-q") || same(name, "--quiet") {
            self.quiet = true;
        } else if same(name, "--dry-run") {
            self.dry_run = true;
        } else if same(name, "-s") || same(name, "--signoff") {
            self.signoff = true;
        } else if same(name, "-n") || same(name, "--no-verify") || same(name, "-v") || same(
            name,
            "--verbose",
        ) || same(name, "--no-edit") || same(name, "--no-gpg-sign") {
        } else {
            return Err(join2("unsupported commit option: ", name));
        }
        Ok(())
    }
}

// ---------------------------------------------------------------------------
// The parts of a commit
// ---------------------------------------------------------------------------

/// The name and the address in `NAME <ADDRESS>`.
pub open spec fn author_in(value: Seq<char>) -> Option<(Seq<char>, Seq<char>)> {
    match rcut_once_text(value, " <"@) {
        Some((name, rest)) => match before_suffix(rest, ">"@) {
            Some(email) => Some((name, email)),
            None => None,
        },
        None => None,
    }
}

/// Reads `NAME <ADDRESS>`.
pub fn parse_author(value: &str) -> (r: Option<(String, String)>)
    ensures
        opt_pair(r) == author_in(value@),
{
    match rsplit_once_text(value, " <") {
        Some((name, rest)) => match strip_suffix(rest.as_str(), ">") {
            Some(email) => Some((name, email)),
            None => None,
        },
        None => None,
    }
}

/// The date of a new commit: what the environment says, or now.
pub open spec fn new_date(m: Machine) -> int {
    let now = clock_seconds(m);
    match lookup(m.environment, "GIT_AUTHOR_DATE"@) {
        Some(v) => match read_date(v, now) {
            Some(t) => t,
            None => now,
        },
        None => now,
    }
}

/// The date of a new commit.
pub fn author_date(system: &System) -> (r: i64)
    ensures
        r == new_date(system@),
{
    let now = now_seconds(system);
    match system.variable("GIT_AUTHOR_DATE") {
        Some(v) => match parse_date(v.as_str(), now) {
            Some(t) => t,
            None => now,
        },
        None => now,
    }
}

/// The commit that HEAD stands on, with its record.
pub open spec fn head_record(m: Machine, root: Seq<char>) -> Option<Listed> {
    match head_id(m, root) {
        Some(id) => match commit_of(m, root, id) {
            Some(n) => Some((id, n)),
            None => None,
        },
        None => None,
    }
}

/// What an optional commit with its id holds.
pub open spec fn opt_entry(o: Option<(String, Commit)>) -> Option<Listed> {
    match o {
        Some((id, c)) => Some((id@, c@)),
        None => None,
    }
}

/// The commit that HEAD stands on, with its record.
pub fn head_entry(system: &System, root: &str) -> (r: Option<(String, Commit)>)
    ensures
        opt_entry(r) == head_record(system@, root@),
{
    match head_commit(system, root) {
        Some(id) => match load_commit(system, root, id.as_str()) {
            Some(c) => Some((id, c)),
            None => None,
        },
        None => None,
    }
}

/// What a file for a message holds. The name `-` stands for standard input.
pub open spec fn message_bytes(m: Machine, s: Screen, path: Seq<char>) -> Option<Seq<u8>> {
    if path == "-"@ {
        Some(s.stdin)
    } else {
        match readable(m, resolved(m.cwd, path)) {
            Some(b) => if b.len() <= MAX_MESSAGE_BYTES {
                Some(b)
            } else {
                None
            },
            None => None,
        }
    }
}

/// The message that the options spell, or the file that cannot be read.
pub open spec fn spelled_message(m: Machine, s: Screen, x: CommitWish) -> Result<Seq<char>, Seq<char>> {
    let given = joined(x.messages, "\n\n"@);
    match x.message_file {
        None => Ok(given),
        Some(path) => match message_bytes(m, s, path) {
            None => Err(path),
            Some(bytes) => {
                let text = trimmed_end(loose_text(bytes));
                if given.len() == 0 {
                    Ok(text)
                } else {
                    Ok(given + "\n\n"@ + text)
                }
            },
        },
    }
}

/// The message of the commit: what the options spell; where that is nothing, the message of the
/// commit that is amended; where that is nothing too, the one that a pending operation recorded.
pub open spec fn full_message(
    m: Machine,
    root: Seq<char>,
    x: CommitWish,
    spelled: Seq<char>,
    previous: Option<Listed>,
) -> Seq<char> {
    let first = if spelled.len() == 0 && x.amend && previous is Some {
        (previous->0).1.message
    } else {
        spelled
    };
    if first.len() == 0 && pending(m, root) is Some && message_pending(m, root) is Some {
        message_pending(m, root)->0
    } else {
        first
    }
}

fn read_spelled(system: &System, x: &CommitAsk, io: &Io) -> (r: Result<String, String>)
    ensures
        match r {
            Ok(text) => spelled_message(system@, io@, x@) == Ok::<Seq<char>, Seq<char>>(text@),
            Err(path) => spelled_message(system@, io@, x@) == Err::<Seq<char>, Seq<char>>(path@),
        },
{
    let given = join(x.messages.as_slice(), "\n\n");
    match &x.message_file {
        None => Ok(given),
        Some(path) => {
            let bytes = if same(path.as_str(), "-") {
                crate::text::copy_bytes(io.stdin.as_slice())
            } else {
                match read_all(
                    system,
                    resolve_against(system.cwd().as_str(), path.as_str()).as_str(),
                ) {
                    Some(b) => {
                        if b.len() > MAX_MESSAGE_BYTES {
                            return Err(copy_text(path.as_str()));
                        }
                        b
                    },
                    None => return Err(copy_text(path.as_str())),
                }
            };
            let text = trim_end(decode_lossy(bytes.as_slice()).as_str());
            if given.as_str().is_empty() {
                Ok(text)
            } else {
                Ok(join3(given.as_str(), "\n\n", text.as_str()))
            }
        },
    }
}

fn complete_message(
    system: &System,
    root: &str,
    x: &CommitAsk,
    spelled: String,
    previous: &Option<(String, Commit)>,
) -> (r: String)
    ensures
        r@ == full_message(system@, root@, x@, spelled@, opt_entry(*previous)),
{
    let mut message = spelled;
    if message.as_str().is_empty() && x.amend {
        if let Some((_, c)) = previous {
            message = copy_text(c.message.as_str());
        }
    }
    if message.as_str().is_empty() && pending_operation(system, root).is_some() {
        if let Some(text) = pending_message(system, root) {
            message = text;
        }
    }
    message
}

/// The parents of the commit and the tree that it is compared with. Amending replaces a commit, so
/// its parents are taken over; finishing a merge adds the commit that is merged.
pub open spec fn commit_base(
    m: Machine,
    s: Screen,
    root: Seq<char>,
    amend: bool,
    previous: Option<Listed>,
) -> (Screen, Result<(Seq<Seq<char>>, Files), int>) {
    match previous {
        None => (s, Ok((seq![], seq![]))),
        Some((id, n)) => if amend {
            match parent_needed(
                m,
                s,
                root,
                if n.parents.len() > 0 {
                    Some(n.parents[0])
                } else {
                    None
                },
            ) {
                (t, Ok(tree)) => (t, Ok((n.parents, tree))),
                (t, Err(e)) => (t, Err(e)),
            }
        } else {
            match tree_needed(m, s, root, id) {
                (t, Ok(tree)) => (
                    t,
                    Ok(
                        (
                            match pending(m, root) {
                                Some((kind, other)) => if kind == "MERGE_HEAD"@ {
                                    seq![id, other]
                                } else {
                                    seq![id]
                                },
                                None => seq![id],
                            },
                            tree,
                        ),
                    ),
                ),
                (t, Err(e)) => (t, Err(e)),
            }
        },
    }
}

/// What the parents and the tree that were found hold.
pub open spec fn base_result(r: Result<(Vec<String>, Tree), i32>) -> Result<(Seq<Seq<char>>, Files), int> {
    match r {
        Ok((parents, tree)) => Ok((texts(parents@), tree@)),
        Err(e) => Err(e as int),
    }
}

fn find_base(
    system: &System,
    root: &str,
    amend: bool,
    previous: &Option<(String, Commit)>,
    io: &mut Io,
) -> (r: Result<(Vec<String>, Tree), i32>)
    ensures
        (final(io)@, base_result(r)) == commit_base(
            system@,
            old(io)@,
            root@,
            amend,
            opt_entry(*previous),
        ),
{
    match previous {
        None => {
            let parents: Vec<String> = Vec::new();
            let tree: Tree = OrdMap::new();
            assert(texts(parents@) =~= seq![]);
            assert(tree@ =~= seq![]);
            Ok((parents, tree))
        },
        Some((id, c)) => {
            if amend {
                assert(c@.parents.len() == c.parents@.len());
                let parent = if c.parents.len() > 0 {
                    assert(c@.parents[0] == c.parents@[0]@);
                    Some(copy_text(c.parents[0].as_str()))
                } else {
                    None
                };
                return match parent_tree(system, root, &parent, io) {
                    Ok(tree) => Ok((copy_texts(c.parents.as_slice()), tree)),
                    Err(e) => Err(e),
                };
            }
            let mut parents: Vec<String> = Vec::new();
            parents.push(copy_text(id.as_str()));
            assert(texts(parents@) =~= seq![id@]);
            if let Some((kind, other)) = pending_operation(system, root) {
                if same(kind.as_str(), "MERGE_HEAD") {
                    parents.push(other);
                    assert(texts(parents@) =~= seq![id@, other@]);
                }
            }
            match require_tree(system, root, id.as_str(), io) {
                Ok(tree) => Ok((parents, tree)),
                Err(e) => Err(e),
            }
        },
    }
}

/// The part of a tree that paths do not name.
pub open spec fn unnamed(t: Files, specs: Seq<Seq<char>>) -> Files
    decreases t.len(),
{
    if t.len() == 0 {
        seq![]
    } else if some_matches(specs, t.last().0) {
        unnamed(t.drop_last(), specs)
    } else {
        bind(unnamed(t.drop_last(), specs), t.last().0, t.last().1)
    }
}

/// A tree with the part of another that paths name put over it.
pub open spec fn with_named(t: Files, over: Files, specs: Seq<Seq<char>>) -> Files
    decreases over.len(),
{
    if over.len() == 0 {
        t
    } else {
        let head = with_named(t, over.drop_last(), specs);
        if some_matches(specs, over.last().0) {
            bind(head, over.last().0, over.last().1)
        } else {
            head
        }
    }
}

/// The tree that is recorded: the whole index, or, where paths are named, the base with what the
/// index holds for them.
pub open spec fn recorded_tree(index: Files, base: Files, specs: Seq<Seq<char>>) -> Files {
    if specs.len() == 0 {
        index
    } else {
        with_named(unnamed(base, specs), index, specs)
    }
}

fn choose_tree(index: &Tree, base: &Tree, specs: &[String]) -> (r: Tree)
    ensures
        r@ == recorded_tree(index@, base@, texts(specs@)),
{
    assert(texts(specs@).len() == specs@.len());
    if specs.len() == 0 {
        return index.duplicate();
    }
    let ghost old_files = base@;
    let ghost new_files = index@;
    let mut t: Tree = OrdMap::new();
    let mut i: usize = 0;
    assert(t@ =~= seq![]);
    while i < base.len()
        invariant
            i <= old_files.len(),
            old_files == base@,
            t@ == unnamed(old_files.take(i as int), texts(specs@)),
        decreases old_files.len() - i,
    {
        assert(old_files.take(i + 1).drop_last() =~= old_files.take(i as int));
        if !any_matches(specs, base.key_at(i)) {
            t.insert(copy_text(base.key_at(i)), base.value_at(i).duplicate());
        }
        i += 1;
    }
    assert(old_files.take(i as int) =~= old_files);
    let ghost rest = t@;
    let mut k: usize = 0;
    while k < index.len()
        invariant
            k <= new_files.len(),
            new_files == index@,
            t@ == with_named(rest, new_files.take(k as int), texts(specs@)),
        decreases new_files.len() - k,
    {
        assert(new_files.take(k + 1).drop_last() =~= new_files.take(k as int));
        if any_matches(specs, index.key_at(k)) {
            t.insert(copy_text(index.key_at(k)), index.value_at(k).duplicate());
        }
        k += 1;
    }
    assert(new_files.take(k as int) =~= new_files);
    t
}

/// The message with the line of whoever signs it off.
pub open spec fn signed(message: Seq<char>, signoff: bool, who: (Seq<char>, Seq<char>)) -> Seq<char> {
    if signoff {
        message + ("\n\nSigned-off-by: "@ + who.0 + " <"@ + who.1 + ">"@)
    } else {
        message
    }
}

/// The record of the new commit.
pub open spec fn new_note(
    m: Machine,
    root: Seq<char>,
    g: Overrides,
    x: CommitWish,
    message: Seq<char>,
    parents: Seq<Seq<char>>,
    previous: Option<Listed>,
) -> Note {
    let who = identity_of(m, root, g);
    let author = match x.author {
        Some(a) => match author_in(a) {
            Some(p) => p,
            None => who,
        },
        None => who,
    };
    Note {
        parents,
        author_name: author.0,
        author_email: author.1,
        timestamp: if x.amend && previous is Some {
            (previous->0).1.timestamp
        } else {
            new_date(m)
        },
        message: signed(message, x.signoff, who),
    }
}

fn make_note(
    system: &System,
    root: &str,
    globals: &Globals,
    x: &CommitAsk,
    message: String,
    parents: Vec<String>,
    previous: &Option<(String, Commit)>,
) -> (r: Commit)
    ensures
        r@ == new_note(
            system@,
            root@,
            globals@,
            x@,
            message@,
            texts(parents@),
            opt_entry(*previous),
        ),
{
    let (name, email) = identity(system, root, globals);
    let mut message = message;
    if x.signoff {
        message.append(
            join5("\n\nSigned-off-by: ", name.as_str(), " <", email.as_str(), ">").as_str(),
        );
    }
    let given = match &x.author {
        Some(a) => parse_author(a.as_str()),
        None => None,
    };
    let (author_name, author_email) = match given {
        Some(p) => p,
        None => (name, email),
    };
    let timestamp: i64 = if x.amend {
        match previous {
            Some((_, c)) => c.timestamp,
            None => author_date(system),
        }
    } else {
        author_date(system)
    };
    Commit { parents, author_name, author_email, timestamp, message }
}

// ---------------------------------------------------------------------------
// Reports
// ---------------------------------------------------------------------------

/// How many lines of the paths came or went. Those of binary files count as well.
pub open spec fn lines_changed(
    m: Machine,
    root: Seq<char>,
    before: Files,
    after: Files,
    paths: Seq<Seq<char>>,
    op: Op,
) -> nat
    decreases paths.len(),
{
    if paths.len() == 0 {
        0
    } else {
        lines_changed(m, root, before, after, paths.drop_last(), op) + counted(
            file_script(
                stored_content(m, root, before, paths.last()),
                stored_content(m, root, after, paths.last()),
            ),
            op,
        )
    }
}

/// What a change amounts to: how many files and lines, and the files that came, went or changed
/// their mode. Nothing is said of a change that changes nothing.
pub open spec fn commit_summary(m: Machine, root: Seq<char>, before: Files, after: Files) -> Seq<char> {
    let paths = changed_paths(before, after, seq![]);
    if paths.len() == 0 {
        ""@
    } else {
        summary_text(
            paths.len(),
            lines_changed(m, root, before, after, paths, Op::Insert),
            lines_changed(m, root, before, after, paths, Op::Delete),
        ) + comparison(m, root, before, after, shape_of(Format::Summary)).0
    }
}

fn count_changed(system: &System, root: &str, before: &Tree, after: &Tree, paths: &[String]) -> (r: (
    u128,
    u128,
))
    ensures
        r.0 == lines_changed(system@, root@, before@, after@, texts(paths@), Op::Insert),
        r.1 == lines_changed(system@, root@, before@, after@, texts(paths@), Op::Delete),
{
    let ghost all = texts(paths@);
    let mut gained: u128 = 0;
    let mut lost: u128 = 0;
    let mut i: usize = 0;
    assert(all.take(0) =~= seq![]);
    while i < paths.len()
        invariant
            i <= paths.len(),
            all == texts(paths@),
            gained == lines_changed(system@, root@, before@, after@, all.take(i as int), Op::Insert),
            lost == lines_changed(system@, root@, before@, after@, all.take(i as int), Op::Delete),
            gained <= i * 0xffff_ffff_ffff_ffff,
            lost <= i * 0xffff_ffff_ffff_ffff,
        decreases paths.len() - i,
    {
        assert(all.take(i + 1).drop_last() =~= all.take(i as int));
        assert(all.take(i + 1).last() == paths@[i as int]@);
        assert(i * 0xffff_ffff_ffff_ffff + 0xffff_ffff_ffff_ffff == (i + 1) * 0xffff_ffff_ffff_ffff);
        assert((i + 1) * 0xffff_ffff_ffff_ffff <= 0xffff_ffff_ffff_ffff_ffff_ffff_ffff_ffff) by (nonlinear_arith)
            requires
                i + 1 <= 0xffff_ffff_ffff_ffff,
        ;
        let a = read_stored(system, root, before, paths[i].as_str());
        let b = read_stored(system, root, after, paths[i].as_str());
        let (plus, minus) = change_counts(as_bytes(&a), as_bytes(&b));
        gained += plus as u128;
        lost += minus as u128;
        i += 1;
    }
    assert(all.take(i as int) =~= all);
    (gained, lost)
}

/// What a change amounts to.
pub fn render_commit_summary(system: &System, root: &str, before: &Tree, after: &Tree) -> (r: String)
    ensures
        r@ == commit_summary(system@, root@, before@, after@),
{
    let none: Vec<String> = Vec::new();
    assert(texts(none@) =~= seq![]);
    let paths = list_changed(before, after, none.as_slice());
    assert(texts(paths@).len() == paths@.len());
    if paths.len() == 0 {
        return copy_text("");
    }
    let (gained, lost) = count_changed(system, root, before, after, paths.as_slice());
    join2(
        summary_line(paths.len(), gained, lost).as_str(),
        compare_trees(system, root, before, after, &options_of(Format::Summary)).0.as_str(),
    )
}

/// The report of a new commit.
pub open spec fn commit_report(
    m: Machine,
    root: Seq<char>,
    amend: bool,
    id: Seq<char>,
    n: Note,
    before: Files,
    after: Files,
) -> Seq<char> {
    "["@ + match branch_of(m, root) {
        Some(b) => b,
        None => "detached HEAD "@ + short_id(id),
    } + " "@ + (if n.parents.len() == 0 && !amend {
        "(root-commit) "@
    } else {
        ""@
    }) + short_id(id) + "] "@ + subject_of(n.message) + "\n"@ + (if amend {
        " Date: "@ + date_text(n.timestamp) + "\n"@
    } else {
        ""@
    }) + commit_summary(m, root, before, after)
}

fn render_commit_report(
    system: &System,
    root: &str,
    amend: bool,
    id: &str,
    commit: &Commit,
    before: &Tree,
    after: &Tree,
) -> (r: String)
    ensures
        r@ == commit_report(system@, root@, amend, id@, commit@, before@, after@),
{
    assert(commit@.parents.len() == commit.parents@.len());
    let label = match current_branch(system, root) {
        Some(b) => b,
        None => join2("detached HEAD ", short(id).as_str()),
    };
    let mut out = join4(
        "[",
        label.as_str(),
        " ",
        if commit.parents.len() == 0 && !amend {
            "(root-commit) "
        } else {
            ""
        },
    );
    out.append(short(id).as_str());
    out.append("] ");
    out.append(commit.subject().as_str());
    out.append("\n");
    let date = if amend {
        join3(" Date: ", format_date(commit.timestamp).as_str(), "\n")
    } else {
        copy_text("")
    };
    out.append(date.as_str());
    out.append(render_commit_summary(system, root, before, after).as_str());
    out
}

/// What the log of HEAD says of a new commit.
pub open spec fn commit_action(n: Note, amend: bool) -> Seq<char> {
    (if n.parents.len() == 0 {
        "commit (initial)"@
    } else if amend {
        "commit (amend)"@
    } else {
        "commit"@
    }) + ": "@ + subject_of(n.message)
}

fn action_of(commit: &Commit, amend: bool) -> (r: String)
    ensures
        r@ == commit_action(commit@, amend),
{
    assert(commit@.parents.len() == commit.parents@.len());
    join3(
        if commit.parents.len() == 0 {
            "commit (initial)"
        } else if amend {
            "commit (amend)"
        } else {
            "commit"
        },
        ": ",
        commit.subject().as_str(),
    )
}

// ---------------------------------------------------------------------------
// git commit
// ---------------------------------------------------------------------------

/// The complaint about paths that are not merged.
pub open spec fn unmerged_complaint() -> Seq<char> {
    "error: Committing is not possible because you have unmerged files.\nhint: Fix them up in the work tree, and then use 'git add/rm <file>'\nhint: as appropriate to mark resolution and make a commit.\nfatal: Exiting because of an unresolved conflict.\n"@
}

/// Storing the commit, moving HEAD to it, and reporting it.
pub open spec fn commit_stored_and_shown(
    m: Machine,
    s: Screen,
    root: Seq<char>,
    x: CommitWish,
    n: Note,
    tree: Files,
    base: Files,
) -> Done {
    match commit_stored(m, root, n, tree) {
        (m1, Err(e)) => Done {
            m: m1,
            s: complained(s, "git commit: "@ + refusal_text(e) + "\n"@),
            status: 1,
        },
        (m1, Ok(())) => {
            let id = commit_id(n, tree);
            match head_updated(m1, root, id, commit_action(n, x.amend)) {
                (m2, Err(e)) => failed(m2, s, write_message("HEAD"@, e)),
                (m2, Ok(())) => {
                    let m3 = if pending(m, root) is Some {
                        cleared(m2, root)
                    } else {
                        m2
                    };
                    Done {
                        m: m3,
                        s: if x.quiet {
                            s
                        } else {
                            printed(
                                s,
                                commit_report(m3, root, x.amend, id, n, base, tree),
                            )
                        },
                        status: 0,
                    }
                },
            }
        },
    }
}

/// Recording a commit with its message.
pub open spec fn commit_recorded(
    m: Machine,
    s: Screen,
    root: Seq<char>,
    g: Overrides,
    x: CommitWish,
    paths: Seq<Seq<char>>,
    message: Seq<char>,
    previous: Option<Listed>,
) -> Done {
    match index_needed(m, s, root) {
        (t, Err(e)) => Done { m, s: t, status: e },
        (t, Ok(index)) => match commit_base(m, t, root, x.amend, previous) {
            (u, Err(e)) => Done { m, s: u, status: e },
            (u, Ok((parents, base))) => {
                let tree = recorded_tree(index, base, pathspecs_of(m.cwd, root, paths));
                if tree == base && !x.allow_empty && pending(m, root) is None {
                    let d = status_done(m, u, seq![]);
                    Done { status: 1, ..d }
                } else {
                    commit_stored_and_shown(
                        m,
                        u,
                        root,
                        x,
                        new_note(m, root, g, x, message, parents, previous),
                        tree,
                        base,
                    )
                }
            },
        },
    }
}

/// What `git commit --dry-run` reports: the status, and whether anything is staged.
pub open spec fn commit_rehearsed(m: Machine, s: Screen, root: Seq<char>) -> Done {
    match index_needed(m, s, root) {
        (t, Err(e)) => Done { m, s: t, status: e },
        (t, Ok(index)) => {
            let d = status_done(m, t, seq![]);
            if d.status == 0 && index == head_files(m, root) {
                Done { status: 1, ..d }
            } else {
                d
            }
        },
    }
}

/// `git commit` once the index is as it should be.
pub open spec fn commit_checked(
    m: Machine,
    s: Screen,
    root: Seq<char>,
    g: Overrides,
    x: CommitWish,
    paths: Seq<Seq<char>>,
) -> Done {
    let previous = head_record(m, root);
    if conflicts_of(m, root).len() > 0 {
        Done { m, s: complained(s, unmerged_complaint()), status: 1 }
    } else if x.amend && previous is None {
        failed(m, s, "You have nothing to amend."@)
    } else {
        match spelled_message(m, s, x) {
            Err(path) => failed(
                m,
                s,
                "could not read log file '"@ + path + "': No such file or directory"@,
            ),
            Ok(spelled) => {
                let message = full_message(m, root, x, spelled, previous);
                if x.dry_run {
                    commit_rehearsed(m, s, root)
                } else if message.len() == 0 && !x.allow_empty {
                    misused(m, s, "a non-empty -m MESSAGE is required"@)
                } else {
                    commit_recorded(m, s, root, g, x, paths, message, previous)
                }
            },
        }
    }
}

/// `git commit` in a repository: what is asked for is staged first.
pub open spec fn commit_within(
    m: Machine,
    s: Screen,
    root: Seq<char>,
    g: Overrides,
    x: CommitWish,
    paths: Seq<Seq<char>>,
) -> Done {
    if x.stage_tracked && paths.len() > 0 {
        misused(m, s, "-a cannot be combined with paths"@)
    } else {
        let d = if x.stage_tracked {
            changes_staged(m, s, root)
        } else if paths.len() > 0 {
            add_done(m, s, seq!["--"@] + paths)
        } else {
            Done { m, s, status: 0 }
        };
        if d.status != 0 {
            d
        } else {
            commit_checked(d.m, d.s, root, g, x, paths)
        }
    }
}

/// `git commit`.
pub open spec fn commit_done(m: Machine, s: Screen, g: Overrides, args: Seq<Seq<char>>) -> Done {
    match words_read::<CommitAsk>(pass_for(args, "amqvns"@, "mF"@), plain_commit(), seq![]) {
        Err(message) => misused(m, s, message),
        Ok((x, paths)) => match repo_root(m) {
            None => no_repo(m, s),
            Some(root) => commit_within(m, s, root, g, x, paths),
        },
    }
}

fn store_and_show(
    system: &mut System,
    root: &str,
    x: &CommitAsk,
    commit: &Commit,
    tree: &Tree,
    base: &Tree,
    io: &mut Io,
) -> (r: i32)
    ensures
        done(final(system)@, final(io)@, r) == commit_stored_and_shown(
            old(system)@,
            old(io)@,
            root@,
            x@,
            commit@,
            tree@,
            base@,
        ),
{
    let finishing = pending_operation(system, root).is_some();
    let id = match store_commit(system, root, commit, tree) {
        Ok(id) => id,
        Err(e) => {
            io.print_err(join3("git commit: ", e.message().as_str(), "\n").as_str());
            return 1;
        },
    };
    let action = action_of(commit, x.amend);
    match update_head(system, root, id.as_str(), action.as_str()) {
        Ok(()) => {},
        Err(e) => return cannot_write(io, "HEAD", &e),
    }
    if finishing {
        clear(system, root);
    }
    if !x.quiet {
        io.print(
            render_commit_report(
                system,
                root,
                x.amend,
                id.as_str(),
                commit,
                base,
                tree,
            ).as_str(),
        );
    }
    0
}

fn record_commit(
    system: &mut System,
    root: &str,
    globals: &Globals,
    x: &CommitAsk,
    paths: &[String],
    message: String,
    previous: &Option<(String, Commit)>,
    io: &mut Io,
) -> (r: i32)
    ensures
        done(final(system)@, final(io)@, r) == commit_recorded(
            old(system)@,
            old(io)@,
            root@,
            globals@,
            x@,
            texts(paths@),
            message@,
            opt_entry(*previous),
        ),
{
    let index = match require_index(system, root, io) {
        Ok(t) => t,
        Err(e) => return e,
    };
    let (parents, base) = match find_base(system, root, x.amend, previous, io) {
        Ok(found) => found,
        Err(e) => return e,
    };
    let specs = pathspecs(system.cwd().as_str(), root, paths);
    let tree = choose_tree(&index, &base, specs.as_slice());
    if same_tree(&tree, &base) && !x.allow_empty && pending_operation(system, root).is_none() {
        let none: Vec<String> = Vec::new();
        assert(texts(none@) =~= seq![]);
        git_status(system, none.as_slice(), io);
        return 1;
    }
    let commit = make_note(system, root, globals, x, message, parents, previous);
    store_and_show(system, root, x, &commit, &tree, &base, io)
}

fn rehearse_commit(system: &mut System, root: &str, io: &mut Io) -> (r: i32)
    ensures
        done(final(system)@, final(io)@, r) == commit_rehearsed(old(system)@, old(io)@, root@),
{
    let index = match require_index(system, root, io) {
        Ok(t) => t,
        Err(e) => return e,
    };
    let head = head_tree(system, root);
    let unchanged = same_tree(&index, &head);
    let none: Vec<String> = Vec::new();
    assert(texts(none@) =~= seq![]);
    let status = git_status(system, none.as_slice(), io);
    if status == 0 && unchanged {
        1
    } else {
        status
    }
}

fn check_commit(
    system: &mut System,
    root: &str,
    globals: &Globals,
    x: &CommitAsk,
    paths: &[String],
    io: &mut Io,
) -> (r: i32)
    ensures
        done(final(system)@, final(io)@, r) == commit_checked(
            old(system)@,
            old(io)@,
            root@,
            globals@,
            x@,
            texts(paths@),
        ),
{
    if !load_stages(system, root).is_empty() {
        io.print_err(
            "error: Committing is not possible because you have unmerged files.\nhint: Fix them up in the work tree, and then use 'git add/rm <file>'\nhint: as appropriate to mark resolution and make a commit.\nfatal: Exiting because of an unresolved conflict.\n",
        );
        return 1;
    }
    let previous = head_entry(system, root);
    if x.amend && previous.is_none() {
        return fatal(io, "You have nothing to amend.");
    }
    let spelled = match read_spelled(system, x, io) {
        Ok(text) => text,
        Err(path) => return fatal(
            io,
            join3(
                "could not read log file '",
                path.as_str(),
                "': No such file or directory",
            ).as_str(),
        ),
    };
    let message = complete_message(system, root, x, spelled, &previous);
    if x.dry_run {
        return rehearse_commit(system, root, io);
    }
    if message.as_str().is_empty() && !x.allow_empty {
        return usage(io, "a non-empty -m MESSAGE is required");
    }
    record_commit(system, root, globals, x, paths, message, &previous, io)
}

fn after_separator(paths: &[String]) -> (r: Vec<String>)
    ensures
        texts(r@) == seq!["--"@] + texts(paths@),
{
    let mut v: Vec<String> = Vec::new();
    v.push(copy_text("--"));
    let mut more = copy_texts(paths);
    let ghost a = v@;
    let ghost b = more@;
    v.append(&mut more);
    assert(texts(v@) =~= seq!["--"@] + texts(paths@));
    v
}

/// `git commit`: records the index.
pub fn git_commit(system: &mut System, globals: &Globals, args: &[String], io: &mut Io) -> (r: i32)
    ensures
        done(final(system)@, final(io)@, r) == commit_done(
            old(system)@,
            old(io)@,
            globals@,
            texts(args@),
        ),
{
    let start = CommitAsk {
        messages: Vec::new(),
        message_file: None,
        stage_tracked: false,
        amend: false,
        allow_empty: false,
        quiet: false,
        dry_run: false,
        signoff: false,
        author: None,
    };
    assert(start@ =~= plain_commit());
    let (x, paths) = match read_words(flags_for(args, "amqvns", "mF"), start) {
        Ok(words) => words,
        Err(message) => return usage(io, message.as_str()),
    };
    let root = match find_repo_root(system) {
        Some(root) => root,
        None => return repo_error(io),
    };
    assert(texts(paths@).len() == paths@.len());
    if x.stage_tracked && paths.len() > 0 {
        return usage(io, "-a cannot be combined with paths");
    }
    let status = if x.stage_tracked {
        stage_tracked_changes(system, root.as_str(), io)
    } else if paths.len() > 0 {
        git_add(system, after_separator(paths.as_slice()).as_slice(), io)
    } else {
        0
    };
    if status != 0 {
        return status;
    }
    check_commit(system, root.as_str(), globals, &x, paths.as_slice(), io)
}

} // verus!
