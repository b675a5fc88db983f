//! Putting paths in the index and taking them out again.

use vstd::prelude::*;

use crate::common::{
    done, index_needed, matches_pathspec, pathspec, pathspec_matches, pathspec_of, require_index,
};
use crate::console::{
    complained, failed, fatal, misused, no_repo, printed, repo_error, usage, Done, Io, Screen,
};
use crate::history::Names;
use crate::ignore::{ignores, IgnoreRules, Rule};
use crate::names::{add_keys, either, key_list, keys_of_either, kept, with_keys};
use crate::objects::{blob_hash, blob_id};
use crate::order::{bind, keys_of, lookup, unbind, Duplicate, OrdMap};
use crate::repo::{
    blob_stored, find_repo_root, index_stored, relative, relative_path, repo_root, store_index, write_blob,
};
use crate::stages::{resolve, resolved_paths};
use crate::status::{frame_all, framed};
use crate::syntax::{flags_for, pass_for, read_words, words_read, Syntax, Want};
use crate::system::{
    charged, inside, is_inside, refusal_text, released, reserved, resolve_against, resolved, Machine, System,
    STOPPED,
};
use crate::text::{
    copy_text, join2, join3, join4, lemma_texts_push, same, starts, starts_with, texts,
};
use crate::trees::{Files, Tree};
use crate::worktree::{
    capped, collect_working_tree, ignore_rules, load_ignores, read_work_file, work_content, working_tree,
};

verus! {

/// The most pathspecs that one command takes.
pub const MAX_PATHSPECS: usize = 256;

/// The most paths that one command stages.
pub const MAX_STAGED: usize = 100_000;

// ---------------------------------------------------------------------------
// Pathspecs
// ---------------------------------------------------------------------------

/// The names with the paths of a tree that match a pathspec.
pub open spec fn with_matching(s: Names, t: Files, spec_text: Seq<char>) -> Names
    decreases t.len(),
{
    if t.len() == 0 {
        s
    } else {
        let head = with_matching(s, t.drop_last(), spec_text);
        if pathspec_matches(spec_text, t.last().0) {
            bind(head, t.last().0, ())
        } else {
            head
        }
    }
}

/// Whether a path of a tree matches a pathspec.
pub open spec fn some_path_matches(t: Files, spec_text: Seq<char>) -> bool {
    exists|i: int| 0 <= i < t.len() && pathspec_matches(spec_text, #[trigger] t[i].0)
}

/// The names with those that one pathspec names, or why it is refused.
pub open spec fn chosen_with(
    cwd: Seq<char>,
    root: Seq<char>,
    s: Names,
    argument: Seq<char>,
    index: Files,
    work: Files,
) -> Result<Names, Seq<char>> {
    let path = resolved(cwd, argument);
    if starts(argument, "-"@) {
        Err("unsupported pathspec: "@ + argument)
    } else if !inside(root, path) {
        Err("pathspec '"@ + argument + "' is outside the repository"@)
    } else {
        match relative(root, path) {
            None => Ok(with_keys(with_keys(s, index), work)),
            Some(r) => if some_path_matches(index, r) || some_path_matches(work, r) {
                Ok(with_matching(with_matching(s, index, r), work, r))
            } else {
                Err("pathspec '"@ + argument + "' did not match any files"@)
            },
        }
    }
}

/// The names that pathspecs name, or why one is refused.
pub open spec fn chosen(
    cwd: Seq<char>,
    root: Seq<char>,
    args: Seq<Seq<char>>,
    index: Files,
    work: Files,
) -> Result<Names, Seq<char>>
    decreases args.len(),
{
    if args.len() == 0 {
        Ok(seq![])
    } else {
        match chosen(cwd, root, args.drop_last(), index, work) {
            Ok(s) => chosen_with(cwd, root, s, args.last(), index, work),
            Err(e) => Err(e),
        }
    }
}

/// What a set of names that was asked for says.
pub open spec fn chosen_result(r: Result<OrdMap<()>, String>) -> Result<Names, Seq<char>> {
    match r {
        Ok(s) => Ok(s@),
        Err(e) => Err(e@),
    }
}

fn add_matching(s: &mut OrdMap<()>, tree: &Tree, spec_text: &str) -> (r: bool)
    ensures
        final(s)@ == with_matching(old(s)@, tree@, spec_text@),
        r == some_path_matches(tree@, spec_text@),
{
    let ghost t = tree@;
    let mut found = false;
    let mut i: usize = 0;
    while i < tree.len()
        invariant
            i <= t.len(),
            t == tree@,
            s@ == with_matching(old(s)@, t.take(i as int), spec_text@),
            found == exists|k: int| 0 <= k < i && pathspec_matches(spec_text@, #[trigger] t[k].0),
        decreases t.len() - i,
    {
        assert(t.take(i + 1).drop_last() =~= t.take(i as int));
        if matches_pathspec(spec_text, tree.key_at(i)) {
            s.insert(copy_text(tree.key_at(i)), ());
            assert(pathspec_matches(spec_text@, t[i as int].0));
            found = true;
        }
        i += 1;
    }
    assert(t.take(i as int) =~= t);
    found
}

fn choose_with(
    cwd: &str,
    root: &str,
    s: &mut OrdMap<()>,
    argument: &str,
    index: &Tree,
    work: &Tree,
) -> (r: Result<(), String>)
    ensures
        match r {
            Ok(()) => chosen_with(cwd@, root@, old(s)@, argument@, index@, work@) == Ok::<
                Names,
                Seq<char>,
            >(final(s)@),
            Err(e) => chosen_with(cwd@, root@, old(s)@, argument@, index@, work@) == Err::<
                Names,
                Seq<char>,
            >(e@),
        },
{
    if starts_with(argument, "-") {
        return Err(join2("unsupported pathspec: ", argument));
    }
    let path = resolve_against(cwd, argument);
    if !is_inside(root, path.as_str()) {
        return Err(join3("pathspec '", argument, "' is outside the repository"));
    }
    match relative_path(root, path.as_str()) {
        None => {
            add_keys(s, index);
            add_keys(s, work);
            Ok(())
        },
        Some(r) => {
            let a = add_matching(s, index, r.as_str());
            let b = add_matching(s, work, r.as_str());
            if a || b {
                Ok(())
            } else {
                Err(join3("pathspec '", argument, "' did not match any files"))
            }
        },
    }
}

/// The paths that pathspecs name. A path that is in the index and not in the working tree still
/// matches; one that neither knows is an error.
pub fn selected_paths(
    cwd: &str,
    root: &str,
    args: &[String],
    index: &Tree,
    work: &Tree,
) -> (r: Result<OrdMap<()>, String>)
    ensures
        chosen_result(r) == chosen(cwd@, root@, texts(args@), index@, work@),
{
    let ghost all = texts(args@);
    let mut s: OrdMap<()> = OrdMap::new();
    let mut i: usize = 0;
    assert(s@ =~= seq![]);
    assert(all.take(0) =~= seq![]);
    while i < args.len()
        invariant
            i <= args.len(),
            all == texts(args@),
            chosen(cwd@, root@, all.take(i as int), index@, work@) == Ok::<Names, Seq<char>>(s@),
        decreases args.len() - i,
    {
        assert(all.take(i + 1).drop_last() =~= all.take(i as int));
        assert(all.take(i + 1).last() == args@[i as int]@);
        match choose_with(cwd, root, &mut s, args[i].as_str(), index, work) {
            Ok(()) => {},
            Err(e) => {
                proof {
                    lemma_refused(cwd@, root@, all, index@, work@, i + 1);
                }
                return Err(e);
            },
        }
        i += 1;
    }
    assert(all.take(i as int) =~= all);
    Ok(s)
}

/// A pathspec that is refused has the whole list refused.
proof fn lemma_refused(
    cwd: Seq<char>,
    root: Seq<char>,
    args: Seq<Seq<char>>,
    index: Files,
    work: Files,
    n: int,
)
    requires
        0 <= n <= args.len(),
        chosen(cwd, root, args.take(n), index, work) is Err,
    ensures
        chosen(cwd, root, args, index, work) == chosen(cwd, root, args.take(n), index, work),
    decreases args.len() - n,
{
    if n < args.len() {
        assert(args.take(n + 1).drop_last() =~= args.take(n));
        lemma_refused(cwd, root, args, index, work, n + 1);
    } else {
        assert(args.take(n) =~= args);
    }
}

// ---------------------------------------------------------------------------
// Staging
// ---------------------------------------------------------------------------

/// What is said of each path, and whether it is staged.
#[derive(Clone, Copy, PartialEq, Eq, Structural)]
pub enum Staging {
    /// The path is staged and nothing is said.
    Silent,
    /// The path is staged and named.
    Verbose,
    /// The path is named and not staged.
    DryRun,
}

/// The line that names a path.
pub open spec fn staging_line(work: Files, path: Seq<char>) -> Seq<char> {
    (if lookup(work, path) is Some {
        "add"@
    } else {
        "remove"@
    }) + " '"@ + path + "'\n"@
}

/// Staging one path: the machine, the screen and the index after it, or the end of the command.
pub open spec fn path_staged(
    m: Machine,
    s: Screen,
    root: Seq<char>,
    index: Files,
    work: Files,
    path: Seq<char>,
    staging: Staging,
) -> Result<(Machine, Screen, Files), Done> {
    let t = if staging == Staging::Silent {
        s
    } else {
        printed(s, staging_line(work, path))
    };
    if staging == Staging::DryRun {
        Ok((m, t, index))
    } else {
        match lookup(work, path) {
            None => Ok((m, t, unbind(index, path))),
            Some(r) => match work_content(m, root, path) {
                None => Err(
                    Done {
                        m,
                        s: complained(t, "git add: unable to read '"@ + path + "'\n"@),
                        status: 1,
                    },
                ),
                Some(data) => if blob_id(data) != r.hash {
                    Err(
                        Done {
                            m,
                            s: complained(
                                t,
                                "git add: '"@ + path + "' changed while building the index\n"@,
                            ),
                            status: 1,
                        },
                    )
                } else {
                    match blob_stored(m, root, data) {
                        (n, Err(e)) => Err(
                            Done {
                                m: n,
                                s: complained(t, "git add: "@ + refusal_text(e) + "\n"@),
                                status: 1,
                            },
                        ),
                        (n, Ok(())) => Ok((n, t, bind(index, path, r))),
                    }
                },
            },
        }
    }
}

/// The end of staging: the index is stored.
pub open spec fn staging_ended(
    m: Machine,
    s: Screen,
    root: Seq<char>,
    index: Files,
    staging: Staging,
) -> Done {
    if staging == Staging::DryRun {
        Done { m, s, status: 0 }
    } else {
        match index_stored(m, root, index) {
            (n, Ok(())) => Done { m: n, s, status: 0 },
            (n, Err(e)) => Done {
                m: n,
                s: complained(s, "git add: "@ + refusal_text(e) + "\n"@),
                status: 1,
            },
        }
    }
}

/// Staging the paths from `i` on.
pub open spec fn staged_from(
    m: Machine,
    s: Screen,
    root: Seq<char>,
    index: Files,
    work: Files,
    paths: Seq<Seq<char>>,
    i: int,
    staging: Staging,
) -> Done
    decreases paths.len() - i,
{
    if i < 0 || i >= paths.len() {
        staging_ended(m, s, root, index, staging)
    } else {
        match path_staged(m, s, root, index, work, paths[i], staging) {
            Ok((n, t, more)) => staged_from(n, t, root, more, work, paths, i + 1, staging),
            Err(d) => d,
        }
    }
}

/// A dry run names what would be staged, and stages nothing.
pub proof fn lemma_dry_run_stages_nothing(
    m: Machine,
    s: Screen,
    root: Seq<char>,
    index: Files,
    work: Files,
    paths: Seq<Seq<char>>,
    i: int,
)
    ensures
        staged_from(m, s, root, index, work, paths, i, Staging::DryRun).m == m,
        staged_from(m, s, root, index, work, paths, i, Staging::DryRun).status == 0,
    decreases paths.len() - i,
{
    if 0 <= i < paths.len() {
        lemma_dry_run_stages_nothing(
            m,
            printed(s, staging_line(work, paths[i])),
            root,
            index,
            work,
            paths,
            i + 1,
        );
    }
}

fn stage_path(
    system: &mut System,
    root: &str,
    index: &mut Tree,
    work: &Tree,
    path: &str,
    staging: Staging,
    io: &mut Io,
) -> (r: Result<(), i32>)
    ensures
        ({
            let x = path_staged(
                old(system)@,
                old(io)@,
                root@,
                old(index)@,
                work@,
                path@,
                staging,
            );
            match r {
                Ok(()) => x == Ok::<(Machine, Screen, Files), Done>(
                    (final(system)@, final(io)@, final(index)@),
                ),
                Err(e) => x == Err::<(Machine, Screen, Files), Done>(
                    done(final(system)@, final(io)@, e),
                ),
            }
        }),
{
    if staging != Staging::Silent {
        let action = if work.contains_key(path) {
            "add"
        } else {
            "remove"
        };
        io.print(join4(action, " '", path, "'\n").as_str());
    }
    if staging == Staging::DryRun {
        return Ok(());
    }
    match work.get(path) {
        None => index.remove(path),
        Some(entry) => {
            let data = match read_work_file(system, root, path) {
                Some(d) => d,
                None => {
                    io.print_err(join3("git add: unable to read '", path, "'\n").as_str());
                    return Err(1);
                },
            };
            if !same(blob_hash(data.as_slice()).as_str(), entry.hash.as_str()) {
                io.print_err(
                    join3("git add: '", path, "' changed while building the index\n").as_str(),
                );
                return Err(1);
            }
            match write_blob(system, root, data.as_slice()) {
                Ok(_) => {},
                Err(e) => {
                    io.print_err(join3("git add: ", e.message().as_str(), "\n").as_str());
                    return Err(1);
                },
            }
            index.insert(copy_text(path), entry.duplicate());
        },
    }
    Ok(())
}

/// Stages the named paths as the working tree holds them.
pub fn stage_paths(
    system: &mut System,
    root: &str,
    tree: Tree,
    work: &Tree,
    paths: &[String],
    staging: Staging,
    io: &mut Io,
) -> (r: i32)
    ensures
        done(final(system)@, final(io)@, r) == staged_from(
            old(system)@,
            old(io)@,
            root@,
            tree@,
            work@,
            texts(paths@),
            0,
            staging,
        ),
{
    let ghost all = texts(paths@);
    let ghost goal = staged_from(system@, io@, root@, tree@, work@, all, 0, staging);
    let mut index = tree;
    let mut i: usize = 0;
    while i < paths.len()
        invariant
            i <= paths.len(),
            all == texts(paths@),
            goal == staged_from(old(system)@, old(io)@, root@, tree@, work@, all, 0, staging),
            goal == staged_from(
                system@,
                io@,
                root@,
                index@,
                work@,
                all,
                i as int,
                staging,
            ),
        decreases paths.len() - i,
    {
        assert(all[i as int] == paths@[i as int]@);
        match stage_path(system, root, &mut index, work, paths[i].as_str(), staging, io) {
            Ok(()) => {},
            Err(e) => return e,
        }
        i += 1;
    }
    if staging == Staging::DryRun {
        return 0;
    }
    match store_index(system, root, &index) {
        Ok(()) => 0,
        Err(e) => {
            io.print_err(join3("git add: ", e.message().as_str(), "\n").as_str());
            1
        },
    }
}

// ---------------------------------------------------------------------------
// git add
// ---------------------------------------------------------------------------

/// What the options of `git add` ask for.
#[derive(Clone, Copy)]
pub struct AddAsk {
    pub all: bool,
    pub update_only: bool,
    pub dry_run: bool,
    pub verbose: bool,
    pub force: bool,
}

impl View for AddAsk {
    type V = AddAsk;

    open spec fn view(&self) -> AddAsk {
        *self
    }
}

impl Syntax for AddAsk {
    open spec fn wants(name: Seq<char>) -> Want {
        Want::Attached
    }

    open spec fn with(asked: AddAsk, name: Seq<char>, value: Option<Seq<char>>) -> Result<
        AddAsk,
        Seq<char>,
    > {
        if name == "-A"@ || name == "--all"@ || name == "--no-ignore-removal"@ {
            Ok(AddAsk { all: true, ..asked })
        } else if name == "-u"@ || name == "--update"@ {
            Ok(AddAsk { update_only: true, ..asked })
        } else if name == "-n"@ || name == "--dry-run"@ {
            Ok(AddAsk { dry_run: true, ..asked })
        } else if name == "-v"@ || name == "--verbose"@ {
            Ok(AddAsk { verbose: true, ..asked })
        } else if name == "-f"@ || name == "--force"@ {
            Ok(AddAsk { force: true, ..asked })
        } else {
            Err("unsupported add option: "@ + name)
        }
    }

    fn wanted(name: &str) -> (r: Want) {
        Want::Attached
    }

    fn apply(&mut self, name: &str, value: Option<String>) -> (r: Result<(), String>) {
        if same(name, "-A") || same(name, "--all") || same(name, "--no-ignore-removal") {
            self.all = true;
        } else if same(name, "-u") || same(name, "--update") {
            self.update_only = true;
        } else if same(name, "-n") || same(name, "--dry-run") {
            self.dry_run = true;
        } else if same(name, "-v") || same(name, "--verbose") {
            self.verbose = true;
        } else if same(name, "-f") || same(name, "--force") {
            self.force = true;
        } else {
            return Err(join2("unsupported add option: ", name));
        }
        Ok(())
    }
}

/// What `git add` is asked for without any option.
pub open spec fn plain_add() -> AddAsk {
    AddAsk { all: false, update_only: false, dry_run: false, verbose: false, force: false }
}

/// The paths that `git add` is given, the machine after finding them, or the end of the command.
pub open spec fn add_paths(
    m: Machine,
    s: Screen,
    root: Seq<char>,
    operands: Seq<Seq<char>>,
    index: Files,
    work: Files,
) -> Result<(Machine, Seq<Seq<char>>), Done> {
    if operands.len() == 0 {
        Ok((m, keys_of(either(index, work))))
    } else {
        let (paid, n) = charged(m, capped((operands.len() * (index.len() + work.len())) as int));
        if !paid {
            Err(Done { m: n, s, status: STOPPED as int })
        } else {
            match chosen(m.cwd, root, operands, index, work) {
                Ok(names) => Ok((n, keys_of(names))),
                Err(message) => Err(failed(n, s, message)),
            }
        }
    }
}

/// The test for paths that the index knows.
pub open spec fn known_test(index: Files) -> spec_fn(Seq<char>) -> bool {
    |p: Seq<char>| lookup(index, p) is Some
}

/// The test for paths that the index knows or that are not ignored.
pub open spec fn welcome_test(index: Files, rules: Seq<Rule>) -> spec_fn(Seq<char>) -> bool {
    |p: Seq<char>| lookup(index, p) is Some || !ignores(rules, p)
}

/// The ignored files that are named outright.
pub open spec fn ignored_names(
    cwd: Seq<char>,
    root: Seq<char>,
    operands: Seq<Seq<char>>,
    index: Files,
    work: Files,
    rules: Seq<Rule>,
) -> Seq<Seq<char>>
    decreases operands.len(),
{
    if operands.len() == 0 {
        seq![]
    } else {
        let head = ignored_names(cwd, root, operands.drop_last(), index, work, rules);
        let path = pathspec_of(cwd, root, operands.last());
        if lookup(work, path) is Some && lookup(index, path) is None && ignores(rules, path) {
            head.push(path)
        } else {
            head
        }
    }
}

/// The complaint about ignored files that are named outright.
pub open spec fn ignored_text(paths: Seq<Seq<char>>) -> Seq<char> {
    "The following paths are ignored by one of your .gitignore files:\n"@ + framed(
        ""@,
        paths,
        "\n"@,
    ) + "hint: Use -f if you really want to add them.\nfatal: no files added\n"@
}

/// How the paths are staged.
pub open spec fn staging_of(asked: AddAsk) -> Staging {
    if asked.dry_run {
        Staging::DryRun
    } else if asked.verbose {
        Staging::Verbose
    } else {
        Staging::Silent
    }
}

/// The end of `git add`: the paths are staged, and a conflict in one of them is settled.
pub open spec fn add_ended(
    m: Machine,
    s: Screen,
    root: Seq<char>,
    asked: AddAsk,
    index: Files,
    work: Files,
    paths: Seq<Seq<char>>,
) -> Done {
    let (got_it, n) = reserved(m, 64 * paths.len() as int);
    if paths.len() > MAX_STAGED || !got_it {
        Done { m, s, status: STOPPED as int }
    } else {
        let d = staged_from(n, s, root, index, work, paths, 0, staging_of(asked));
        let after = released(d.m, 64 * paths.len() as int);
        if d.status == 0 && !asked.dry_run {
            Done { m: resolved_paths(after, root, paths), ..d }
        } else {
            Done { m: after, ..d }
        }
    }
}

/// `git add` once the trees are read.
pub open spec fn add_within(
    m: Machine,
    s: Screen,
    root: Seq<char>,
    asked: AddAsk,
    operands: Seq<Seq<char>>,
    index: Files,
    work: Files,
) -> Done {
    match add_paths(m, s, root, operands, index, work) {
        Err(d) => d,
        Ok((n, found)) => {
            let paths = if asked.update_only {
                kept(found, known_test(index))
            } else {
                found
            };
            if asked.force {
                add_ended(n, s, root, asked, index, work, paths)
            } else {
                let rules = ignore_rules(n, root);
                let named = ignored_names(m.cwd, root, operands, index, work, rules);
                if named.len() > 0 {
                    Done { m: n, s: complained(s, ignored_text(named)), status: 1 }
                } else {
                    add_ended(
                        n,
                        s,
                        root,
                        asked,
                        index,
                        work,
                        kept(paths, welcome_test(index, rules)),
                    )
                }
            }
        },
    }
}

/// `git add`.
pub open spec fn add_done(m: Machine, s: Screen, args: Seq<Seq<char>>) -> Done {
    match words_read::<AddAsk>(pass_for(args, "Auvnf"@, ""@), plain_add(), seq![]) {
        Err(message) => misused(m, s, message),
        Ok((asked, operands)) => if !asked.all && !asked.update_only && operands.len() == 0 {
            Done {
                m,
                s: complained(
                    s,
                    "Nothing specified, nothing added.\nhint: Maybe you wanted to say 'git add .'?\n"@,
                ),
                status: 0,
            }
        } else if operands.len() > MAX_PATHSPECS {
            failed(m, s, "too many pathspecs"@)
        } else {
            match repo_root(m) {
                None => no_repo(m, s),
                Some(root) => match index_needed(m, s, root) {
                    (t, Err(e)) => Done { m, s: t, status: e },
                    (t, Ok(index)) => match working_tree(m, root) {
                        (n, Err(e)) => Done { m: n, s: t, status: e },
                        (n, Ok(work)) => add_within(n, t, root, asked, operands, index, work),
                    },
                },
            }
        },
    }
}

fn keep_known(v: Vec<String>, index: &Tree) -> (r: Vec<String>)
    ensures
        texts(r@) == kept(texts(v@), known_test(index@)),
{
    let ghost all = texts(v@);
    let mut out: Vec<String> = Vec::new();
    let mut i: usize = 0;
    assert(texts(out@) =~= seq![]);
    while i < v.len()
        invariant
            i <= v.len(),
            all == texts(v@),
            texts(out@) == kept(all.take(i as int), known_test(index@)),
        decreases v.len() - i,
    {
        broadcast use lemma_texts_push;

        assert(all.take(i + 1).drop_last() =~= all.take(i as int));
        assert(all.take(i + 1).last() == v@[i as int]@);
        if index.contains_key(v[i].as_str()) {
            out.push(copy_text(v[i].as_str()));
        }
        i += 1;
    }
    assert(all.take(i as int) =~= all);
    out
}

fn keep_welcome(v: Vec<String>, index: &Tree, rules: &IgnoreRules) -> (r: Vec<String>)
    ensures
        texts(r@) == kept(texts(v@), welcome_test(index@, rules@)),
{
    let ghost all = texts(v@);
    let mut out: Vec<String> = Vec::new();
    let mut i: usize = 0;
    assert(texts(out@) =~= seq![]);
    while i < v.len()
        invariant
            i <= v.len(),
            all == texts(v@),
            texts(out@) == kept(all.take(i as int), welcome_test(index@, rules@)),
        decreases v.len() - i,
    {
        broadcast use lemma_texts_push;

        assert(all.take(i + 1).drop_last() =~= all.take(i as int));
        assert(all.take(i + 1).last() == v@[i as int]@);
        if index.contains_key(v[i].as_str()) || !rules.is_ignored(v[i].as_str()) {
            out.push(copy_text(v[i].as_str()));
        }
        i += 1;
    }
    assert(all.take(i as int) =~= all);
    out
}

fn name_ignored(
    cwd: &str,
    root: &str,
    operands: &[String],
    index: &Tree,
    work: &Tree,
    rules: &IgnoreRules,
) -> (r: Vec<String>)
    ensures
        texts(r@) == ignored_names(cwd@, root@, texts(operands@), index@, work@, rules@),
{
    let ghost all = texts(operands@);
    let mut out: Vec<String> = Vec::new();
    let mut i: usize = 0;
    assert(texts(out@) =~= seq![]);
    while i < operands.len()
        invariant
            i <= operands.len(),
            all == texts(operands@),
            texts(out@) == ignored_names(
                cwd@,
                root@,
                all.take(i as int),
                index@,
                work@,
                rules@,
            ),
        decreases operands.len() - i,
    {
        broadcast use lemma_texts_push;

        assert(all.take(i + 1).drop_last() =~= all.take(i as int));
        assert(all.take(i + 1).last() == operands@[i as int]@);
        let path = pathspec(cwd, root, operands[i].as_str());
        if work.contains_key(path.as_str()) && !index.contains_key(path.as_str())
            && rules.is_ignored(path.as_str()) {
            out.push(path);
        }
        i += 1;
    }
    assert(all.take(i as int) =~= all);
    out
}

fn find_add_paths(
    system: &mut System,
    root: &str,
    operands: &[String],
    index: &Tree,
    work: &Tree,
    io: &mut Io,
) -> (r: Result<Vec<String>, i32>)
    requires
        operands@.len() <= MAX_PATHSPECS,
    ensures
        ({
            let x = add_paths(
                old(system)@,
                old(io)@,
                root@,
                texts(operands@),
                index@,
                work@,
            );
            match r {
                Ok(v) => x == Ok::<(Machine, Seq<Seq<char>>), Done>((final(system)@, texts(v@)))
                    && final(io)@ == old(io)@,
                Err(e) => x == Err::<(Machine, Seq<Seq<char>>), Done>(
                    done(final(system)@, final(io)@, e),
                ),
            }
        }),
{
    if operands.len() == 0 {
        return Ok(key_list(&keys_of_either(index, work)));
    }
    let total: u128 = index.len() as u128 + work.len() as u128;
    assert(operands@.len() * total <= 256 * (2 * 0xffff_ffff_ffff_ffff)) by (nonlinear_arith)
        requires
            operands@.len() <= 256,
            total <= 2 * 0xffff_ffff_ffff_ffff,
    ;
    let units = crate::worktree::cap((operands.len() as u128) * total);
    if !system.charge_cpu(units) {
        return Err(STOPPED);
    }
    match selected_paths(system.cwd().as_str(), root, operands, index, work) {
        Ok(names) => Ok(key_list(&names)),
        Err(message) => Err(fatal(io, message.as_str())),
    }
}

fn end_add(
    system: &mut System,
    root: &str,
    asked: AddAsk,
    index: Tree,
    work: &Tree,
    paths: &[String],
    io: &mut Io,
) -> (r: i32)
    ensures
        done(final(system)@, final(io)@, r) == add_ended(
            old(system)@,
            old(io)@,
            root@,
            asked,
            index@,
            work@,
            texts(paths@),
        ),
{
    assert(texts(paths@).len() == paths@.len());
    if paths.len() > MAX_STAGED {
        return STOPPED;
    }
    let need: u64 = 64 * (paths.len() as u64);
    if !system.reserve_memory(need) {
        return STOPPED;
    }
    let staging = if asked.dry_run {
        Staging::DryRun
    } else if asked.verbose {
        Staging::Verbose
    } else {
        Staging::Silent
    };
    let status = stage_paths(system, root, index, work, paths, staging, io);
    system.release_memory(need);
    if status == 0 && !asked.dry_run {
        resolve(system, root, paths);
    }
    status
}

/// `git add`: stages the content of the working tree.
pub fn git_add(system: &mut System, args: &[String], io: &mut Io) -> (r: i32)
    ensures
        done(final(system)@, final(io)@, r) == add_done(old(system)@, old(io)@, texts(args@)),
{
    let start = AddAsk {
        all: false,
        update_only: false,
        dry_run: false,
        verbose: false,
        force: false,
    };
    let (asked, operands) = match read_words(flags_for(args, "Auvnf", ""), start) {
        Ok(pair) => pair,
        Err(message) => return usage(io, message.as_str()),
    };
    assert(texts(operands@).len() == operands@.len());
    if !asked.all && !asked.update_only && operands.len() == 0 {
        io.print_err(
            "Nothing specified, nothing added.\nhint: Maybe you wanted to say 'git add .'?\n",
        );
        return 0;
    }
    if operands.len() > MAX_PATHSPECS {
        return fatal(io, "too many pathspecs");
    }
    let root = match find_repo_root(system) {
        Some(root) => root,
        None => return repo_error(io),
    };
    let index = match require_index(system, root.as_str(), io) {
        Ok(t) => t,
        Err(e) => return e,
    };
    let work = match collect_working_tree(system, root.as_str()) {
        Ok(t) => t,
        Err(e) => return e,
    };
    let cwd = system.cwd();
    let mut paths = match find_add_paths(
        system,
        root.as_str(),
        operands.as_slice(),
        &index,
        &work,
        io,
    ) {
        Ok(v) => v,
        Err(e) => return e,
    };
    if asked.update_only {
        paths = keep_known(paths, &index);
    }
    if !asked.force {
        let rules = load_ignores(system, root.as_str());
        let named = name_ignored(
            cwd.as_str(),
            root.as_str(),
            operands.as_slice(),
            &index,
            &work,
            &rules,
        );
        assert(texts(named@).len() == named@.len());
        if named.len() > 0 {
            io.print_err(
                join3(
                    "The following paths are ignored by one of your .gitignore files:\n",
                    frame_all("", named.as_slice(), "\n").as_str(),
                    "hint: Use -f if you really want to add them.\nfatal: no files added\n",
                ).as_str(),
            );
            return 1;
        }
        paths = keep_welcome(paths, &index, &rules);
    }
    end_add(system, root.as_str(), asked, index, &work, paths.as_slice(), io)
}

/// Staging every path of the index as the working tree holds it.
pub open spec fn changes_staged(m: Machine, s: Screen, root: Seq<char>) -> Done {
    match index_needed(m, s, root) {
        (t, Err(e)) => Done { m, s: t, status: e },
        (t, Ok(index)) => match working_tree(m, root) {
            (n, Err(e)) => Done { m: n, s: t, status: e },
            (n, Ok(work)) => staged_from(
                n,
                t,
                root,
                index,
                work,
                keys_of(index),
                0,
                Staging::Silent,
            ),
        },
    }
}

/// Stages every path of the index as the working tree holds it.
pub fn stage_tracked_changes(system: &mut System, root: &str, io: &mut Io) -> (r: i32)
    ensures
        done(final(system)@, final(io)@, r) == changes_staged(old(system)@, old(io)@, root@),
{
    let index = match require_index(system, root, io) {
        Ok(t) => t,
        Err(e) => return e,
    };
    let work = match collect_working_tree(system, root) {
        Ok(t) => t,
        Err(e) => return e,
    };
    let paths = key_list(&index);
    stage_paths(system, root, index, &work, paths.as_slice(), Staging::Silent, io)
}

} // verus!
