//! Removing and moving files together with their entries in the index.

use vstd::prelude::*;

use crate::combine::hash_of;
use crate::common::{at_or_below, done, index_needed, is_at_or_below, require_index};
use crate::console::{
    complained, failed, fatal, misused, no_repo, printed, repo_error, usage, Done, Io, Screen,
};
use crate::names::kept;
use crate::objects::blob_id;
use crate::order::{bind, keys_of, lookup, unbind};
use crate::repo::{
    blob_stored, find_repo_root, head_files, head_tree, in_git, index_stored, is_git_path, relative, relative_path,
    repo_root, store_index, write_blob,
};
use crate::stages::{conflicts_of, load_stages, resolve, resolved_paths, Conflicts, Stages};
use crate::staging::MAX_PATHSPECS;
use crate::status::{frame_all, framed};
use crate::syntax::{flags_for, pass_for, read_words, words_read, Syntax, Want};
use crate::system::{
    base_name, basename, below, charged, dir_at, file_at, inside, is_inside, outcome, parent, parent_of, path_join,
    refusal_text, released, reserved, resolve_against, resolved, settled, thing_at, with_files, with_moved,
    with_parents, without_file, FileError, Machine, Refusal, System, STOPPED,
};
use crate::text::{
    after_prefix, copy_text, join2, join3, join4, lemma_texts_push, same, starts, starts_with, strip_prefix, texts,
};
use crate::trees::{Entry, Files, Record, Tree};
use crate::worktree::{
    cap, metered_file_hash, metered_hash, move_memory, prune_empty_parents, pruned, read_work_file, work_content,
};

verus! {

/// The absolute path that an operand names and its path below the root, or why it is refused.
pub open spec fn operand_paths(cwd: Seq<char>, root: Seq<char>, operand: Seq<char>) -> Result<
    (Seq<char>, Seq<char>),
    Seq<char>,
> {
    let path = resolved(cwd, operand);
    if !inside(root, path) || in_git(root, path) {
        Err("pathspec '"@ + operand + "' is outside the working tree"@)
    } else {
        match relative(root, path) {
            Some(r) => Ok((path, r)),
            None => Err("pathspec '"@ + operand + "' does not name a file"@),
        }
    }
}

/// What the paths of an operand say.
pub open spec fn operand_result(r: Result<(String, String), String>) -> Result<
    (Seq<char>, Seq<char>),
    Seq<char>,
> {
    match r {
        Ok((a, b)) => Ok((a@, b@)),
        Err(e) => Err(e@),
    }
}

/// The absolute path that an operand names and its path below the root.
pub fn repo_operand(cwd: &str, root: &str, operand: &str) -> (r: Result<(String, String), String>)
    ensures
        operand_result(r) == operand_paths(cwd@, root@, operand@),
{
    let path = resolve_against(cwd, operand);
    if !is_inside(root, path.as_str()) || is_git_path(root, path.as_str()) {
        return Err(join3("pathspec '", operand, "' is outside the working tree"));
    }
    match relative_path(root, path.as_str()) {
        Some(r) => Ok((path, r)),
        None => Err(join3("pathspec '", operand, "' does not name a file")),
    }
}

// ---------------------------------------------------------------------------
// git rm
// ---------------------------------------------------------------------------

/// What the options of `git rm` ask for.
#[derive(Clone, Copy)]
pub struct RmAsk {
    pub cached: bool,
    pub force: bool,
    pub recursive: bool,
    pub ignore_unmatch: bool,
    pub quiet: bool,
}

impl View for RmAsk {
    type V = RmAsk;

    open spec fn view(&self) -> RmAsk {
        *self
    }
}

impl Syntax for RmAsk {
    open spec fn wants(name: Seq<char>) -> Want {
        Want::Attached
    }

    open spec fn with(asked: RmAsk, name: Seq<char>, value: Option<Seq<char>>) -> Result<
        RmAsk,
        Seq<char>,
    > {
        if name == "--cached"@ {
            Ok(RmAsk { cached: true, ..asked })
        } else if name == "-f"@ || name == "--force"@ {
            Ok(RmAsk { force: true, ..asked })
        } else if name == "-r"@ {
            Ok(RmAsk { recursive: true, ..asked })
        } else if name == "-q"@ || name == "--quiet"@ {
            Ok(RmAsk { quiet: true, ..asked })
        } else if name == "--ignore-unmatch"@ {
            Ok(RmAsk { ignore_unmatch: true, ..asked })
        } else {
            Err("unsupported rm option: "@ + name)
        }
    }

    fn wanted(name: &str) -> (r: Want) {
        Want::Attached
    }

    fn apply(&mut self, name: &str, value: Option<String>) -> (r: Result<(), String>) {
        if same(name, "--cached") {
            self.cached = true;
        } else if same(name, "-f") || same(name, "--force") {
            self.force = true;
        } else if same(name, "-r") {
            self.recursive = true;
        } else if same(name, "-q") || same(name, "--quiet") {
            self.quiet = true;
        } else if same(name, "--ignore-unmatch") {
            self.ignore_unmatch = true;
        } else {
            return Err(join2("unsupported rm option: ", name));
        }
        Ok(())
    }
}

/// What `git rm` is asked for without any option.
pub open spec fn plain_rm() -> RmAsk {
    RmAsk { cached: false, force: false, recursive: false, ignore_unmatch: false, quiet: false }
}

/// What removing looks at: HEAD, the index and the unmerged paths.
pub struct Known {
    pub head: Tree,
    pub index: Tree,
    pub unmerged: Stages,
}

/// What removing looks at holds.
#[verifier::ext_equal]
pub struct Knowledge {
    pub head: Files,
    pub index: Files,
    pub unmerged: Conflicts,
}

impl View for Known {
    type V = Knowledge;

    open spec fn view(&self) -> Knowledge {
        Knowledge { head: self.head@, index: self.index@, unmerged: self.unmerged@ }
    }
}

/// The complaint about a file that holds work.
pub open spec fn modified_text(path: Seq<char>) -> Seq<char> {
    "error: the following file has local modifications:\n    "@ + path
        + "\n(use --cached to keep the file, or -f to force removal)\n"@
}

/// Whether a path may go, and the machine once that is known. An unmerged path needs no force:
/// removing it is how a conflict with a deletion is settled.
pub open spec fn rm_checked(
    m: Machine,
    s: Screen,
    root: Seq<char>,
    asked: RmAsk,
    k: Knowledge,
    path: Seq<char>,
) -> Result<Machine, Done> {
    if asked.force || lookup(k.unmerged, path) is Some {
        Ok(m)
    } else {
        let staged = match lookup(k.index, path) {
            Some(r) => r.hash,
            None => ""@,
        };
        match metered_hash(m, below(root, path)) {
            (n, Err(e)) => Err(Done { m: n, s, status: e }),
            (n, Ok(found)) => {
                let as_work = found == Some(staged);
                let as_head = hash_of(lookup(k.head, path)) == Some(staged);
                let safe = if asked.cached {
                    as_work || as_head
                } else {
                    as_work && as_head
                };
                if safe {
                    Ok(n)
                } else {
                    Err(Done { m: n, s: complained(s, modified_text(path)), status: 1 })
                }
            },
        }
    }
}

/// Whether all the paths from `i` on may go.
pub open spec fn rm_all_checked(
    m: Machine,
    s: Screen,
    root: Seq<char>,
    asked: RmAsk,
    k: Knowledge,
    paths: Seq<Seq<char>>,
    i: int,
) -> Result<Machine, Done>
    decreases paths.len() - i,
{
    if i < 0 || i >= paths.len() {
        Ok(m)
    } else {
        match rm_checked(m, s, root, asked, k, paths[i]) {
            Ok(n) => rm_all_checked(n, s, root, asked, k, paths, i + 1),
            Err(d) => Err(d),
        }
    }
}

/// The test for paths at or below `prefix`.
pub open spec fn below_test(prefix: Seq<char>) -> spec_fn(Seq<char>) -> bool {
    |p: Seq<char>| at_or_below(prefix, p)
}

/// The paths that one operand of `git rm` names, and the machine once it is known that they may go.
pub open spec fn rm_operand(
    m: Machine,
    s: Screen,
    root: Seq<char>,
    asked: RmAsk,
    k: Knowledge,
    operand: Seq<char>,
) -> Result<(Machine, Seq<Seq<char>>), Done> {
    match operand_paths(m.cwd, root, operand) {
        Err(message) => Err(failed(m, s, message)),
        Ok((path, r)) => {
            let v = kept(keys_of(k.index), below_test(r));
            if v.len() == 0 {
                if asked.ignore_unmatch {
                    Ok((m, seq![]))
                } else {
                    Err(failed(m, s, "pathspec '"@ + operand + "' did not match any files"@))
                }
            } else if (v.len() > 1 || v[0] != r) && !asked.recursive {
                Err(failed(m, s, "not removing '"@ + operand + "' recursively without -r"@))
            } else if v.len() == 1 && v[0] == r && !asked.cached && !file_at(m.files, path) {
                Err(failed(m, s, "pathspec '"@ + operand + "' is missing"@))
            } else {
                match rm_all_checked(m, s, root, asked, k, v, 0) {
                    Ok(n) => Ok((n, v)),
                    Err(d) => Err(d),
                }
            }
        },
    }
}

/// The paths that the operands of `git rm` from `i` on name, behind those in `head`.
pub open spec fn rm_operands(
    m: Machine,
    s: Screen,
    root: Seq<char>,
    asked: RmAsk,
    k: Knowledge,
    operands: Seq<Seq<char>>,
    i: int,
    head: Seq<Seq<char>>,
) -> Result<(Machine, Seq<Seq<char>>), Done>
    decreases operands.len() - i,
{
    if i < 0 || i >= operands.len() {
        Ok((m, head))
    } else {
        match rm_operand(m, s, root, asked, k, operands[i]) {
            Ok((n, v)) => rm_operands(n, s, root, asked, k, operands, i + 1, head + v),
            Err(d) => Err(d),
        }
    }
}

/// Removing one file, and the directories that it leaves empty.
pub open spec fn one_removed(m: Machine, root: Seq<char>, path: Seq<char>) -> (
    Machine,
    Result<(), Refusal>,
) {
    if !file_at(m.files, below(root, path)) {
        (m, Ok(()))
    } else {
        match settled(m, without_file(m.files, below(root, path))) {
            (n, Ok(())) => (pruned(n, root, below(root, path)), Ok(())),
            (n, Err(e)) => (n, Err(e)),
        }
    }
}

/// Removing the paths from `i` on from the working tree and the index; the index is stored.
pub open spec fn all_removed(
    m: Machine,
    root: Seq<char>,
    index: Files,
    paths: Seq<Seq<char>>,
    i: int,
    cached: bool,
) -> (Machine, Result<(), Refusal>)
    decreases paths.len() - i,
{
    if i < 0 || i >= paths.len() {
        index_stored(m, root, index)
    } else {
        let (n, r) = if cached {
            (m, Ok::<(), Refusal>(()))
        } else {
            one_removed(m, root, paths[i])
        };
        match r {
            Ok(()) => all_removed(n, root, unbind(index, paths[i]), paths, i + 1, cached),
            Err(e) => (n, Err(e)),
        }
    }
}

/// The end of `git rm`: all the paths go, or none of them.
pub open spec fn rm_ended(
    m: Machine,
    s: Screen,
    root: Seq<char>,
    asked: RmAsk,
    index: Files,
    paths: Seq<Seq<char>>,
) -> Done {
    let (enough, m1) = reserved(m, move_memory(m));
    if !enough {
        Done { m: m1, s, status: STOPPED as int }
    } else {
        let (m2, r) = all_removed(m1, root, index, paths, 0, asked.cached);
        let m3 = released(m2, move_memory(m));
        match r {
            Err(e) => Done {
                m: with_files(m3, m.files),
                s: complained(s, "git rm: "@ + refusal_text(e) + "\n"@),
                status: 1,
            },
            Ok(()) => Done {
                m: resolved_paths(m3, root, paths),
                s: if asked.quiet {
                    s
                } else {
                    printed(s, framed("rm '"@, paths, "'\n"@))
                },
                status: 0,
            },
        }
    }
}

/// `git rm`.
pub open spec fn rm_done(m: Machine, s: Screen, args: Seq<Seq<char>>) -> Done {
    match words_read::<RmAsk>(pass_for(args, "rfq"@, ""@), plain_rm(), seq![]) {
        Err(message) => misused(m, s, message),
        Ok((asked, operands)) => if operands.len() == 0 || operands.len() > MAX_PATHSPECS {
            misused(m, s, "git rm requires between 1 and 256 file paths"@)
        } else {
            match repo_root(m) {
                None => no_repo(m, s),
                Some(root) => match index_needed(m, s, root) {
                    (t, Err(e)) => Done { m, s: t, status: e },
                    (t, Ok(index)) => {
                        let k = Knowledge {
                            head: head_files(m, root),
                            index,
                            unmerged: conflicts_of(m, root),
                        };
                        match rm_operands(m, t, root, asked, k, operands, 0, seq![]) {
                            Err(d) => d,
                            Ok((n, paths)) => rm_ended(n, t, root, asked, index, paths),
                        }
                    },
                },
            }
        },
    }
}

/// A machine that is asked for, or the end of the command.
pub open spec fn machine_or_done(r: Result<(), i32>, m: Machine, s: Screen) -> Result<Machine, Done> {
    match r {
        Ok(()) => Ok(m),
        Err(e) => Err(done(m, s, e)),
    }
}

fn check_rm(system: &mut System, root: &str, asked: RmAsk, k: &Known, path: &str, io: &mut Io) -> (r:
    Result<(), i32>)
    ensures
        machine_or_done(r, final(system)@, final(io)@) == rm_checked(
            old(system)@,
            old(io)@,
            root@,
            asked,
            k@,
            path@,
        ),
        r is Ok ==> final(io)@ == old(io)@,
{
    if asked.force || k.unmerged.contains_key(path) {
        return Ok(());
    }
    let staged = match k.index.get(path) {
        Some(e) => copy_text(e.hash.as_str()),
        None => copy_text(""),
    };
    let found = match metered_file_hash(system, path_join(root, path).as_str()) {
        Ok(f) => f,
        Err(e) => return Err(e),
    };
    let as_work = match &found {
        Some(h) => same(h.as_str(), staged.as_str()),
        None => false,
    };
    let as_head = match k.head.get(path) {
        Some(e) => same(e.hash.as_str(), staged.as_str()),
        None => false,
    };
    let safe = if asked.cached {
        as_work || as_head
    } else {
        as_work && as_head
    };
    if safe {
        return Ok(());
    }
    io.print_err(
        join3(
            "error: the following file has local modifications:\n    ",
            path,
            "\n(use --cached to keep the file, or -f to force removal)\n",
        ).as_str(),
    );
    Err(1)
}

/// The paths of the index at or below `prefix`.
pub fn tracked_below(index: &Tree, prefix: &str) -> (r: Vec<String>)
    ensures
        texts(r@) == kept(keys_of(index@), below_test(prefix@)),
{
    let ghost all = keys_of(index@);
    let mut out: Vec<String> = Vec::new();
    let mut i: usize = 0;
    assert(texts(out@) =~= seq![]);
    while i < index.len()
        invariant
            i <= index@.len(),
            all == keys_of(index@),
            texts(out@) == kept(all.take(i as int), below_test(prefix@)),
        decreases index@.len() - i,
    {
        broadcast use lemma_texts_push;

        assert(all.take(i + 1).drop_last() =~= all.take(i as int));
        assert(all.take(i + 1).last() == index@[i as int].0);
        if is_at_or_below(prefix, index.key_at(i)) {
            out.push(copy_text(index.key_at(i)));
        }
        i += 1;
    }
    assert(all.take(i as int) =~= all);
    out
}

/// Paths that are asked for, or the end of the command.
pub open spec fn paths_or_done(r: Result<Vec<String>, i32>, m: Machine, s: Screen) -> Result<
    (Machine, Seq<Seq<char>>),
    Done,
> {
    match r {
        Ok(v) => Ok((m, texts(v@))),
        Err(e) => Err(done(m, s, e)),
    }
}

fn find_rm_operand(
    system: &mut System,
    root: &str,
    asked: RmAsk,
    k: &Known,
    operand: &str,
    io: &mut Io,
) -> (r: Result<Vec<String>, i32>)
    ensures
        paths_or_done(r, final(system)@, final(io)@) == rm_operand(
            old(system)@,
            old(io)@,
            root@,
            asked,
            k@,
            operand@,
        ),
        r is Ok ==> final(io)@ == old(io)@,
{
    let (path, rel) = match repo_operand(system.cwd().as_str(), root, operand) {
        Ok(pair) => pair,
        Err(message) => return Err(fatal(io, message.as_str())),
    };
    let v = tracked_below(&k.index, rel.as_str());
    let ghost all = texts(v@);
    assert(all.len() == v@.len());
    if v.len() == 0 {
        if asked.ignore_unmatch {
            assert(all =~= seq![]);
            return Ok(v);
        }
        return Err(
            fatal(io, join3("pathspec '", operand, "' did not match any files").as_str()),
        );
    }
    assert(all[0] == v@[0]@);
    let exact = v.len() == 1 && same(v[0].as_str(), rel.as_str());
    if !exact && !asked.recursive {
        return Err(
            fatal(io, join3("not removing '", operand, "' recursively without -r").as_str()),
        );
    }
    if exact && !asked.cached && !system.is_file(path.as_str()) {
        return Err(fatal(io, join3("pathspec '", operand, "' is missing").as_str()));
    }
    let ghost goal = rm_all_checked(system@, io@, root@, asked, k@, all, 0);
    let ghost s = io@;
    let mut i: usize = 0;
    while i < v.len()
        invariant
            i <= v.len(),
            all == texts(v@),
            io@ == s,
            goal == rm_all_checked(system@, s, root@, asked, k@, all, i as int),
            rm_operand(old(system)@, old(io)@, root@, asked, k@, operand@) == (match goal {
                Ok(n) => Ok::<(Machine, Seq<Seq<char>>), Done>((n, all)),
                Err(d) => Err::<(Machine, Seq<Seq<char>>), Done>(d),
            }),
        decreases v.len() - i,
    {
        assert(all[i as int] == v@[i as int]@);
        match check_rm(system, root, asked, k, v[i].as_str(), io) {
            Ok(()) => {},
            Err(e) => return Err(e),
        }
        i += 1;
    }
    Ok(v)
}

fn find_rm_paths(
    system: &mut System,
    root: &str,
    asked: RmAsk,
    k: &Known,
    operands: &[String],
    io: &mut Io,
) -> (r: Result<Vec<String>, i32>)
    ensures
        paths_or_done(r, final(system)@, final(io)@) == rm_operands(
            old(system)@,
            old(io)@,
            root@,
            asked,
            k@,
            texts(operands@),
            0,
            seq![],
        ),
        r is Ok ==> final(io)@ == old(io)@,
{
    let ghost all = texts(operands@);
    let ghost s = io@;
    let ghost goal = rm_operands(system@, s, root@, asked, k@, all, 0, seq![]);
    let mut out: Vec<String> = Vec::new();
    let mut i: usize = 0;
    assert(texts(out@) =~= seq![]);
    while i < operands.len()
        invariant
            i <= operands.len(),
            all == texts(operands@),
            io@ == s,
            s == old(io)@,
            goal == rm_operands(old(system)@, s, root@, asked, k@, all, 0, seq![]),
            goal == rm_operands(system@, s, root@, asked, k@, all, i as int, texts(out@)),
        decreases operands.len() - i,
    {
        assert(all[i as int] == operands@[i as int]@);
        let mut more = match find_rm_operand(
            system,
            root,
            asked,
            k,
            operands[i].as_str(),
            io,
        ) {
            Ok(v) => v,
            Err(e) => return Err(e),
        };
        let ghost was = out@;
        let ghost extra = more@;
        out.append(&mut more);
        assert(texts(out@) =~= texts(was) + texts(extra));
        i += 1;
    }
    Ok(out)
}

fn remove_one(system: &mut System, root: &str, path: &str) -> (r: Result<(), FileError>)
    ensures
        (final(system)@, outcome(r)) == one_removed(old(system)@, root@, path@),
{
    let absolute = path_join(root, path);
    if !system.is_file(absolute.as_str()) {
        return Ok(());
    }
    match system.unlink(absolute.as_str()) {
        Ok(()) => {
            prune_empty_parents(system, root, absolute.as_str());
            Ok(())
        },
        Err(e) => Err(e),
    }
}

fn remove_paths(system: &mut System, root: &str, tree: Tree, paths: &[String], cached: bool) -> (r:
    Result<(), FileError>)
    ensures
        (final(system)@, outcome(r)) == all_removed(
            old(system)@,
            root@,
            tree@,
            texts(paths@),
            0,
            cached,
        ),
{
    let ghost all = texts(paths@);
    let ghost goal = all_removed(system@, root@, tree@, all, 0, cached);
    let mut index = tree;
    let mut i: usize = 0;
    while i < paths.len()
        invariant
            i <= paths.len(),
            all == texts(paths@),
            goal == all_removed(old(system)@, root@, tree@, all, 0, cached),
            goal == all_removed(system@, root@, index@, all, i as int, cached),
        decreases paths.len() - i,
    {
        let path = paths[i].as_str();
        assert(all[i as int] == path@);
        if !cached {
            match remove_one(system, root, path) {
                Ok(()) => {},
                Err(e) => return Err(e),
            }
        }
        index.remove(path);
        i += 1;
    }
    store_index(system, root, &index)
}

fn end_rm(system: &mut System, root: &str, asked: RmAsk, index: Tree, paths: &[String], io: &mut Io) -> (r:
    i32)
    ensures
        done(final(system)@, final(io)@, r) == rm_ended(
            old(system)@,
            old(io)@,
            root@,
            asked,
            index@,
            texts(paths@),
        ),
{
    let need = cap(system.disk_used() as u128 + 4096);
    if !system.reserve_memory(need) {
        return STOPPED;
    }
    let saved = system.save_files();
    let result = remove_paths(system, root, index, paths, asked.cached);
    system.release_memory(need);
    match result {
        Err(e) => {
            system.restore_files(saved);
            io.print_err(join3("git rm: ", e.message().as_str(), "\n").as_str());
            1
        },
        Ok(()) => {
            resolve(system, root, paths);
            if !asked.quiet {
                io.print(frame_all("rm '", paths, "'\n").as_str());
            }
            0
        },
    }
}

/// `git rm`: removes files from the index and the working tree.
pub fn git_rm(system: &mut System, args: &[String], io: &mut Io) -> (r: i32)
    ensures
        done(final(system)@, final(io)@, r) == rm_done(old(system)@, old(io)@, texts(args@)),
{
    let start = RmAsk {
        cached: false,
        force: false,
        recursive: false,
        ignore_unmatch: false,
        quiet: false,
    };
    let (asked, operands) = match read_words(flags_for(args, "rfq", ""), start) {
        Ok(pair) => pair,
        Err(message) => return usage(io, message.as_str()),
    };
    assert(texts(operands@).len() == operands@.len());
    if operands.len() == 0 || operands.len() > MAX_PATHSPECS {
        return usage(io, "git rm requires between 1 and 256 file paths");
    }
    let root = match find_repo_root(system) {
        Some(root) => root,
        None => return repo_error(io),
    };
    let index = match require_index(system, root.as_str(), io) {
        Ok(t) => t,
        Err(e) => return e,
    };
    let k = Known {
        head: head_tree(system, root.as_str()),
        index,
        unmerged: load_stages(system, root.as_str()),
    };
    let paths = match find_rm_paths(
        system,
        root.as_str(),
        asked,
        &k,
        operands.as_slice(),
        io,
    ) {
        Ok(v) => v,
        Err(e) => return e,
    };
    end_rm(system, root.as_str(), asked, k.index, paths.as_slice(), io)
}

// ---------------------------------------------------------------------------
// git mv
// ---------------------------------------------------------------------------

/// What the options of `git mv` ask for.
#[derive(Clone, Copy)]
pub struct MvAsk {
    pub force: bool,
}

impl View for MvAsk {
    type V = MvAsk;

    open spec fn view(&self) -> MvAsk {
        *self
    }
}

impl Syntax for MvAsk {
    open spec fn wants(name: Seq<char>) -> Want {
        Want::Attached
    }

    open spec fn with(asked: MvAsk, name: Seq<char>, value: Option<Seq<char>>) -> Result<
        MvAsk,
        Seq<char>,
    > {
        if name == "-f"@ || name == "--force"@ {
            Ok(MvAsk { force: true })
        } else if name == "-k"@ || name == "-v"@ || name == "--verbose"@ {
            Ok(asked)
        } else {
            Err("unsupported mv option: "@ + name)
        }
    }

    fn wanted(name: &str) -> (r: Want) {
        Want::Attached
    }

    fn apply(&mut self, name: &str, value: Option<String>) -> (r: Result<(), String>) {
        if same(name, "-f") || same(name, "--force") {
            self.force = true;
        } else if same(name, "-k") || same(name, "-v") || same(name, "--verbose") {
        } else {
            return Err(join2("unsupported mv option: ", name));
        }
        Ok(())
    }
}

/// One move: the path below the root, and where it goes, as an absolute path and below the root.
pub struct Move {
    pub source: String,
    pub target: String,
    pub target_relative: String,
}

/// What a move holds.
#[verifier::ext_equal]
pub struct Step {
    pub source: Seq<char>,
    pub target: Seq<char>,
    pub target_relative: Seq<char>,
}

impl View for Move {
    type V = Step;

    open spec fn view(&self) -> Step {
        Step {
            source: self.source@,
            target: self.target@,
            target_relative: self.target_relative@,
        }
    }
}

/// What a list of moves holds.
pub open spec fn moves_of(v: Seq<Move>) -> Seq<Step> {
    v.map_values(|x: Move| x@)
}

broadcast proof fn lemma_moves_push(v: Seq<Move>, x: Move)
    ensures
        #[trigger] moves_of(v.push(x)) == moves_of(v).push(x@),
{
    assert(moves_of(v.push(x)) =~= moves_of(v).push(x@));
}

/// Where things are moved: the destination, whether it is a directory, and whether it may be
/// overwritten.
pub struct Destination {
    pub path: String,
    pub is_directory: bool,
    pub force: bool,
}

/// What a destination holds.
#[verifier::ext_equal]
pub struct Goal {
    pub path: Seq<char>,
    pub is_directory: bool,
    pub force: bool,
}

impl View for Destination {
    type V = Goal;

    open spec fn view(&self) -> Goal {
        Goal { path: self.path@, is_directory: self.is_directory, force: self.force }
    }
}

/// The test for paths below the directory `dir`.
pub open spec fn within_test(dir: Seq<char>) -> spec_fn(Seq<char>) -> bool {
    |p: Seq<char>| starts(p, dir + "/"@)
}

/// The paths that a source names: every path of the index below it where it is a directory.
pub open spec fn mv_paths(m: Machine, index: Files, source: Seq<char>, source_relative: Seq<char>) -> Seq<
    Seq<char>,
> {
    if dir_at(m.files, source) {
        kept(keys_of(index), within_test(source_relative))
    } else {
        seq![source_relative]
    }
}

/// Where a path goes.
pub open spec fn mv_target(
    goal: Goal,
    source: Seq<char>,
    source_relative: Seq<char>,
    path: Seq<char>,
) -> Seq<char> {
    match after_prefix(path, source_relative + "/"@) {
        Some(suffix) => if goal.is_directory {
            goal.path + "/"@ + base_name(source) + "/"@ + suffix
        } else {
            goal.path + "/"@ + suffix
        },
        None => if goal.is_directory {
            goal.path + "/"@ + base_name(source)
        } else {
            goal.path
        },
    }
}

/// The move of one path, or why it is refused.
pub open spec fn mv_step(
    m: Machine,
    root: Seq<char>,
    index: Files,
    goal: Goal,
    operand: Seq<char>,
    source: (Seq<char>, Seq<char>),
    path: Seq<char>,
) -> Result<Step, Seq<char>> {
    let target = mv_target(goal, source.0, source.1, path);
    match relative(root, target) {
        None => Err("destination is outside the working tree"@),
        Some(r) => if !goal.force && (thing_at(m.files, target) is Some || lookup(index, r) is Some) {
            Err("destination exists, source="@ + operand + ", destination="@ + r)
        } else {
            Ok(Step { source: path, target, target_relative: r })
        },
    }
}

/// The moves of the paths from `i` on, behind those in `head`.
pub open spec fn mv_steps(
    m: Machine,
    root: Seq<char>,
    index: Files,
    goal: Goal,
    operand: Seq<char>,
    source: (Seq<char>, Seq<char>),
    paths: Seq<Seq<char>>,
    i: int,
    head: Seq<Step>,
) -> Result<Seq<Step>, Seq<char>>
    decreases paths.len() - i,
{
    if i < 0 || i >= paths.len() {
        Ok(head)
    } else {
        match mv_step(m, root, index, goal, operand, source, paths[i]) {
            Ok(x) => mv_steps(
                m,
                root,
                index,
                goal,
                operand,
                source,
                paths,
                i + 1,
                head.push(x),
            ),
            Err(e) => Err(e),
        }
    }
}

/// Whether some path is not in the index.
pub open spec fn some_unknown(index: Files, paths: Seq<Seq<char>>) -> bool {
    exists|i: int| 0 <= i < paths.len() && lookup(index, #[trigger] paths[i]) is None
}

/// The moves that one operand asks for, behind those in `head`.
pub open spec fn mv_operand(
    m: Machine,
    root: Seq<char>,
    index: Files,
    goal: Goal,
    operand: Seq<char>,
    head: Seq<Step>,
) -> Result<Seq<Step>, Seq<char>> {
    match operand_paths(m.cwd, root, operand) {
        Err(e) => Err(e),
        Ok(source) => {
            let paths = mv_paths(m, index, source.0, source.1);
            if paths.len() == 0 || some_unknown(index, paths) {
                Err("bad source, source="@ + operand)
            } else {
                mv_steps(m, root, index, goal, operand, source, paths, 0, head)
            }
        },
    }
}

/// The moves that the operands from `i` on ask for, behind those in `head`.
pub open spec fn mv_operands(
    m: Machine,
    root: Seq<char>,
    index: Files,
    goal: Goal,
    operands: Seq<Seq<char>>,
    i: int,
    head: Seq<Step>,
) -> Result<Seq<Step>, Seq<char>>
    decreases operands.len() - i,
{
    if i < 0 || i >= operands.len() {
        Ok(head)
    } else {
        match mv_operand(m, root, index, goal, operands[i], head) {
            Ok(v) => mv_operands(m, root, index, goal, operands, i + 1, v),
            Err(e) => Err(e),
        }
    }
}

/// Moving one file over whatever stands at the target.
pub open spec fn file_moved(m: Machine, from: Seq<char>, to: Seq<char>) -> (
    Machine,
    Result<(), Refusal>,
) {
    let (m1, a) = if thing_at(m.files, to) is Some {
        settled(m, without_file(m.files, to))
    } else {
        (m, Ok(()))
    };
    let (m2, b) = match parent(to) {
        Some(p) => settled(m1, with_parents(m1.files, p + "/."@)),
        None => (m1, Ok(())),
    };
    if a is Err {
        (m1, a)
    } else if b is Err {
        (m2, b)
    } else {
        settled(m2, with_moved(m2.files, from, to))
    }
}

/// The entry of the target: the content of the file, with the modes that were recorded.
pub open spec fn moved_entry(index: Files, source: Seq<char>, data: Seq<u8>) -> Record {
    match lookup(index, source) {
        Some(r) => Record { hash: blob_id(data), ..r },
        None => Record { hash: blob_id(data), executable: false, symlink: false },
    }
}

/// Making one move: the machine and the index after it.
pub open spec fn step_made(m: Machine, root: Seq<char>, index: Files, x: Step) -> (
    Machine,
    Result<Files, Seq<char>>,
) {
    match work_content(m, root, x.source) {
        None => (m, Err("cannot read '"@ + x.source + "'"@)),
        Some(data) => {
            let (paid, m1) = charged(m, data.len() as int);
            if !paid {
                (m1, Err("cpu limit exceeded"@))
            } else {
                match blob_stored(m1, root, data) {
                    (m2, Err(e)) => (m2, Err(refusal_text(e))),
                    (m2, Ok(())) => match file_moved(m2, below(root, x.source), x.target) {
                        (m3, Err(e)) => (m3, Err(refusal_text(e))),
                        (m3, Ok(())) => (
                            pruned(m3, root, below(root, x.source)),
                            Ok(
                                bind(
                                    unbind(index, x.source),
                                    x.target_relative,
                                    moved_entry(index, x.source, data),
                                ),
                            ),
                        ),
                    },
                }
            }
        },
    }
}

/// Making the moves from `i` on; the index is stored.
pub open spec fn steps_made(m: Machine, root: Seq<char>, index: Files, steps: Seq<Step>, i: int) -> (
    Machine,
    Result<(), Seq<char>>,
)
    decreases steps.len() - i,
{
    if i < 0 || i >= steps.len() {
        match index_stored(m, root, index) {
            (n, Ok(())) => (n, Ok(())),
            (n, Err(e)) => (n, Err(refusal_text(e))),
        }
    } else {
        match step_made(m, root, index, steps[i]) {
            (n, Ok(more)) => steps_made(n, root, more, steps, i + 1),
            (n, Err(e)) => (n, Err(e)),
        }
    }
}

/// The end of `git mv`: all the moves are made, or none.
pub open spec fn mv_ended(m: Machine, s: Screen, root: Seq<char>, index: Files, steps: Seq<Step>) -> Done {
    let (enough, m1) = reserved(m, move_memory(m));
    if !enough {
        Done { m: m1, s, status: STOPPED as int }
    } else {
        let (m2, r) = steps_made(m1, root, index, steps, 0);
        let m3 = released(m2, move_memory(m));
        match r {
            Ok(()) => Done { m: m3, s, status: 0 },
            Err(e) => Done {
                m: with_files(m3, m.files),
                s: complained(s, "git mv: "@ + e + "\n"@),
                status: 1,
            },
        }
    }
}

/// `git mv`.
pub open spec fn mv_done(m: Machine, s: Screen, args: Seq<Seq<char>>) -> Done {
    match words_read::<MvAsk>(pass_for(args, "fkv"@, ""@), MvAsk { force: false }, seq![]) {
        Err(message) => misused(m, s, message),
        Ok((asked, operands)) => if operands.len() < 2 {
            misused(m, s, "usage: git mv SOURCE... DESTINATION"@)
        } else {
            match repo_root(m) {
                None => no_repo(m, s),
                Some(root) => match operand_paths(m.cwd, root, operands.last()) {
                    Err(message) => failed(m, s, message),
                    Ok((path, _)) => {
                        let goal = Goal {
                            path,
                            is_directory: dir_at(m.files, path),
                            force: asked.force,
                        };
                        if operands.len() > 2 && !goal.is_directory {
                            misused(
                                m,
                                s,
                                "destination must be a directory when moving several sources"@,
                            )
                        } else {
                            match index_needed(m, s, root) {
                                (t, Err(e)) => Done { m, s: t, status: e },
                                (t, Ok(index)) => match mv_operands(
                                    m,
                                    root,
                                    index,
                                    goal,
                                    operands.drop_last(),
                                    0,
                                    seq![],
                                ) {
                                    Err(e) => failed(m, t, e),
                                    Ok(steps) => mv_ended(m, t, root, index, steps),
                                },
                            }
                        }
                    },
                },
            }
        },
    }
}

/// What moves that are asked for say.
pub open spec fn steps_result(r: Result<Vec<Move>, String>) -> Result<Seq<Step>, Seq<char>> {
    match r {
        Ok(v) => Ok(moves_of(v@)),
        Err(e) => Err(e@),
    }
}

fn list_within(index: &Tree, dir: &str) -> (r: Vec<String>)
    ensures
        texts(r@) == kept(keys_of(index@), within_test(dir@)),
{
    let prefix = join2(dir, "/");
    let ghost all = keys_of(index@);
    let mut out: Vec<String> = Vec::new();
    let mut i: usize = 0;
    assert(texts(out@) =~= seq![]);
    while i < index.len()
        invariant
            i <= index@.len(),
            prefix@ == dir@ + "/"@,
            all == keys_of(index@),
            texts(out@) == kept(all.take(i as int), within_test(dir@)),
        decreases index@.len() - i,
    {
        broadcast use lemma_texts_push;

        assert(all.take(i + 1).drop_last() =~= all.take(i as int));
        assert(all.take(i + 1).last() == index@[i as int].0);
        if starts_with(index.key_at(i), prefix.as_str()) {
            out.push(copy_text(index.key_at(i)));
        }
        i += 1;
    }
    assert(all.take(i as int) =~= all);
    out
}

fn list_mv_paths(system: &System, index: &Tree, source: &str, source_relative: &str) -> (r: Vec<String>)
    ensures
        texts(r@) == mv_paths(system@, index@, source@, source_relative@),
{
    if system.is_dir(source) {
        list_within(index, source_relative)
    } else {
        let mut v: Vec<String> = Vec::new();
        v.push(copy_text(source_relative));
        assert(texts(v@) =~= seq![source_relative@]);
        v
    }
}

fn target_of(goal: &Destination, source: &str, source_relative: &str, path: &str) -> (r: String)
    ensures
        r@ == mv_target(goal@, source@, source_relative@, path@),
{
    match strip_prefix(path, join2(source_relative, "/").as_str()) {
        Some(suffix) => if goal.is_directory {
            let mut out = join4(goal.path.as_str(), "/", basename(source).as_str(), "/");
            out.append(suffix.as_str());
            out
        } else {
            join3(goal.path.as_str(), "/", suffix.as_str())
        },
        None => if goal.is_directory {
            join3(goal.path.as_str(), "/", basename(source).as_str())
        } else {
            copy_text(goal.path.as_str())
        },
    }
}

fn plan_move(
    system: &System,
    root: &str,
    index: &Tree,
    goal: &Destination,
    operand: &str,
    source: (&str, &str),
    path: &str,
) -> (r: Result<Move, String>)
    ensures
        match r {
            Ok(x) => mv_step(
                system@,
                root@,
                index@,
                goal@,
                operand@,
                (source.0@, source.1@),
                path@,
            ) == Ok::<Step, Seq<char>>(x@),
            Err(e) => mv_step(
                system@,
                root@,
                index@,
                goal@,
                operand@,
                (source.0@, source.1@),
                path@,
            ) == Err::<Step, Seq<char>>(e@),
        },
{
    let target = target_of(goal, source.0, source.1, path);
    let target_relative = match relative_path(root, target.as_str()) {
        Some(r) => r,
        None => return Err(copy_text("destination is outside the working tree")),
    };
    if !goal.force && (system.path_exists(target.as_str()) || index.contains_key(
        target_relative.as_str(),
    )) {
        return Err(
            join4(
                "destination exists, source=",
                operand,
                ", destination=",
                target_relative.as_str(),
            ),
        );
    }
    Ok(Move { source: copy_text(path), target, target_relative })
}

fn any_unknown(index: &Tree, paths: &[String]) -> (r: bool)
    ensures
        r == some_unknown(index@, texts(paths@)),
{
    let ghost all = texts(paths@);
    let mut i: usize = 0;
    while i < paths.len()
        invariant
            i <= paths.len(),
            all == texts(paths@),
            forall|k: int| 0 <= k < i ==> lookup(index@, #[trigger] all[k]) is Some,
        decreases paths.len() - i,
    {
        assert(all[i as int] == paths@[i as int]@);
        if !index.contains_key(paths[i].as_str()) {
            return true;
        }
        i += 1;
    }
    false
}

fn plan_operand(
    system: &System,
    root: &str,
    index: &Tree,
    goal: &Destination,
    operand: &str,
    head: Vec<Move>,
) -> (r: Result<Vec<Move>, String>)
    ensures
        steps_result(r) == mv_operand(
            system@,
            root@,
            index@,
            goal@,
            operand@,
            moves_of(head@),
        ),
{
    let (source, source_relative) = match repo_operand(system.cwd().as_str(), root, operand) {
        Ok(pair) => pair,
        Err(e) => return Err(e),
    };
    let paths = list_mv_paths(system, index, source.as_str(), source_relative.as_str());
    let ghost all = texts(paths@);
    assert(all.len() == paths@.len());
    if paths.len() == 0 || any_unknown(index, paths.as_slice()) {
        return Err(join2("bad source, source=", operand));
    }
    let ghost pair = (source@, source_relative@);
    let ghost result = mv_steps(
        system@,
        root@,
        index@,
        goal@,
        operand@,
        pair,
        all,
        0,
        moves_of(head@),
    );
    let mut out = head;
    let mut i: usize = 0;
    while i < paths.len()
        invariant
            i <= paths.len(),
            all == texts(paths@),
            pair == (source@, source_relative@),
            result == mv_operand(
                system@,
                root@,
                index@,
                goal@,
                operand@,
                moves_of(head@),
            ),
            result == mv_steps(
                system@,
                root@,
                index@,
                goal@,
                operand@,
                pair,
                all,
                i as int,
                moves_of(out@),
            ),
        decreases paths.len() - i,
    {
        broadcast use lemma_moves_push;

        assert(all[i as int] == paths@[i as int]@);
        match plan_move(
            system,
            root,
            index,
            goal,
            operand,
            (source.as_str(), source_relative.as_str()),
            paths[i].as_str(),
        ) {
            Ok(x) => out.push(x),
            Err(e) => return Err(e),
        }
        i += 1;
    }
    Ok(out)
}

fn plan_moves(system: &System, root: &str, index: &Tree, goal: &Destination, operands: &[String]) -> (r:
    Result<Vec<Move>, String>)
    ensures
        steps_result(r) == mv_operands(
            system@,
            root@,
            index@,
            goal@,
            texts(operands@),
            0,
            seq![],
        ),
{
    let ghost all = texts(operands@);
    let mut out: Vec<Move> = Vec::new();
    assert(moves_of(out@) =~= seq![]);
    let ghost result = mv_operands(system@, root@, index@, goal@, all, 0, seq![]);
    let mut i: usize = 0;
    while i < operands.len()
        invariant
            i <= operands.len(),
            all == texts(operands@),
            result == mv_operands(system@, root@, index@, goal@, all, 0, seq![]),
            result == mv_operands(
                system@,
                root@,
                index@,
                goal@,
                all,
                i as int,
                moves_of(out@),
            ),
        decreases operands.len() - i,
    {
        assert(all[i as int] == operands@[i as int]@);
        out = match plan_operand(system, root, index, goal, operands[i].as_str(), out) {
            Ok(v) => v,
            Err(e) => return Err(e),
        };
        i += 1;
    }
    Ok(out)
}

fn move_file(system: &mut System, from: &str, to: &str) -> (r: Result<(), FileError>)
    ensures
        (final(system)@, outcome(r)) == file_moved(old(system)@, from@, to@),
{
    if system.path_exists(to) {
        match system.unlink(to) {
            Ok(()) => {},
            Err(e) => return Err(e),
        }
    }
    if let Some(p) = parent_of(to) {
        match system.mkdir_all(p.as_str()) {
            Ok(()) => {},
            Err(e) => return Err(e),
        }
    }
    system.rename(from, to)
}

/// What a step that gives an index says.
pub open spec fn index_result(r: Result<(), String>, index: Files) -> Result<Files, Seq<char>> {
    match r {
        Ok(()) => Ok(index),
        Err(e) => Err(e@),
    }
}

fn make_move(system: &mut System, root: &str, index: &mut Tree, x: &Move) -> (r: Result<(), String>)
    ensures
        (final(system)@, index_result(r, final(index)@)) == step_made(
            old(system)@,
            root@,
            old(index)@,
            x@,
        ),
{
    let data = match read_work_file(system, root, x.source.as_str()) {
        Some(d) => d,
        None => return Err(join3("cannot read '", x.source.as_str(), "'")),
    };
    if !system.charge_cpu(data.len() as u64) {
        return Err(copy_text("cpu limit exceeded"));
    }
    let hash = match write_blob(system, root, data.as_slice()) {
        Ok(h) => h,
        Err(e) => return Err(e.message()),
    };
    let from = path_join(root, x.source.as_str());
    match move_file(system, from.as_str(), x.target.as_str()) {
        Ok(()) => {},
        Err(e) => return Err(e.message()),
    }
    let entry = match index.get(x.source.as_str()) {
        Some(e) => Entry { hash, executable: e.executable, symlink: e.symlink },
        None => Entry { hash, executable: false, symlink: false },
    };
    index.remove(x.source.as_str());
    index.insert(copy_text(x.target_relative.as_str()), entry);
    prune_empty_parents(system, root, from.as_str());
    Ok(())
}

fn make_moves(system: &mut System, root: &str, tree: Tree, moves: &[Move]) -> (r: Result<(), String>)
    ensures
        (final(system)@, crate::worktree::message_result(r)) == steps_made(
            old(system)@,
            root@,
            tree@,
            moves_of(moves@),
            0,
        ),
{
    let ghost all = moves_of(moves@);
    let ghost result = steps_made(system@, root@, tree@, all, 0);
    let mut index = tree;
    let mut i: usize = 0;
    while i < moves.len()
        invariant
            i <= moves.len(),
            all == moves_of(moves@),
            result == steps_made(old(system)@, root@, tree@, all, 0),
            result == steps_made(system@, root@, index@, all, i as int),
        decreases moves.len() - i,
    {
        assert(all[i as int] == moves@[i as int]@);
        match make_move(system, root, &mut index, &moves[i]) {
            Ok(()) => {},
            Err(e) => return Err(e),
        }
        i += 1;
    }
    match store_index(system, root, &index) {
        Ok(()) => Ok(()),
        Err(e) => Err(e.message()),
    }
}

fn end_mv(system: &mut System, root: &str, index: Tree, moves: &[Move], io: &mut Io) -> (r: i32)
    ensures
        done(final(system)@, final(io)@, r) == mv_ended(
            old(system)@,
            old(io)@,
            root@,
            index@,
            moves_of(moves@),
        ),
{
    let need = cap(system.disk_used() as u128 + 4096);
    if !system.reserve_memory(need) {
        return STOPPED;
    }
    let saved = system.save_files();
    let result = make_moves(system, root, index, moves);
    system.release_memory(need);
    match result {
        Ok(()) => 0,
        Err(e) => {
            system.restore_files(saved);
            io.print_err(join3("git mv: ", e.as_str(), "\n").as_str());
            1
        },
    }
}

/// `git mv`: moves or renames files in the index and the working tree.
pub fn git_mv(system: &mut System, args: &[String], io: &mut Io) -> (r: i32)
    ensures
        done(final(system)@, final(io)@, r) == mv_done(old(system)@, old(io)@, texts(args@)),
{
    let (asked, operands) = match read_words(flags_for(args, "fkv", ""), MvAsk { force: false }) {
        Ok(pair) => pair,
        Err(message) => return usage(io, message.as_str()),
    };
    let ghost all = texts(operands@);
    assert(all.len() == operands@.len());
    if operands.len() < 2 {
        return usage(io, "usage: git mv SOURCE... DESTINATION");
    }
    let root = match find_repo_root(system) {
        Some(root) => root,
        None => return repo_error(io),
    };
    let last: usize = operands.len() - 1;
    assert(all.last() == operands@[last as int]@);
    let (path, _) = match repo_operand(
        system.cwd().as_str(),
        root.as_str(),
        operands[last].as_str(),
    ) {
        Ok(pair) => pair,
        Err(message) => return fatal(io, message.as_str()),
    };
    let is_directory = system.is_dir(path.as_str());
    if operands.len() > 2 && !is_directory {
        return usage(io, "destination must be a directory when moving several sources");
    }
    let index = match require_index(system, root.as_str(), io) {
        Ok(t) => t,
        Err(e) => return e,
    };
    let goal = Destination { path, is_directory, force: asked.force };
    let sources = vstd::slice::slice_subrange(operands.as_slice(), 0, last);
    assert(texts(sources@) =~= all.drop_last());
    let moves = match plan_moves(system, root.as_str(), &index, &goal, sources) {
        Ok(v) => v,
        Err(e) => return fatal(io, e.as_str()),
    };
    end_mv(system, root.as_str(), index, moves.as_slice(), io)
}

// ---------------------------------------------------------------------------
// All or nothing
// ---------------------------------------------------------------------------

/// A removal that does not succeed leaves every file as it was.
pub proof fn lemma_rm_all_or_nothing(
    m: Machine,
    s: Screen,
    root: Seq<char>,
    asked: RmAsk,
    index: Files,
    paths: Seq<Seq<char>>,
)
    ensures
        rm_ended(m, s, root, asked, index, paths).status != 0 ==> rm_ended(
            m,
            s,
            root,
            asked,
            index,
            paths,
        ).m.files == m.files,
{
}

/// A move that does not succeed leaves every file as it was.
pub proof fn lemma_mv_all_or_nothing(
    m: Machine,
    s: Screen,
    root: Seq<char>,
    index: Files,
    steps: Seq<Step>,
)
    ensures
        mv_ended(m, s, root, index, steps).status != 0 ==> mv_ended(
            m,
            s,
            root,
            index,
            steps,
        ).m.files == m.files,
{
}

} // verus!
