//! `git clean` and `git ls-files`.

use vstd::prelude::*;

use crate::common::{
    any_matches, at_or_below, done, index_needed, index_or_empty, is_at_or_below, load_index_or_empty,
    require_index, some_matches,
};
use crate::console::{
    complained, failed, fatal, misused, no_repo, printed, repo_error, usage, Done, Io, Screen,
};
use crate::history::Names;
use crate::ignore::{ignores, IgnoreRules, Rule};
use crate::names::{add_keys, add_names, kept, lemma_kept_passes, same_entry, with_keys, with_names};
use crate::order::{keys_of, lemma_lookup_place, lemma_other_key_stays, lookup, OrdMap};
use crate::placing::lemma_places_differ;
use crate::repo::{find_repo_root, relative, relative_path, repo_root};
use crate::stages::{conflicts_of, load_stages, Conflicts, Stages};
use crate::status::{
    all_collapsed, collapse_untracked, collapsed, lemma_all_collapsed, lemma_collapsed, line_end,
};
use crate::syntax::{flags_for, pass_for, read_words, words_read, Syntax, Want};
use crate::system::{
    below, inside, path_join, paths_inside, settled, without_all, without_file, without_tree, Disk, Machine, Refusal,
    System,
};
use crate::text::{
    after_prefix, copy_text, ends, ends_with, join2, join3, join4, join5, lemma_texts_push, opt_text, same,
    starts, strip_prefix, texts, trim_end_matches, without_trailing,
};
use crate::trees::{mode_of, Files, Tree};
use crate::worktree::{collect_working_tree, ignore_rules, load_ignores, working_tree};

verus! {

// ---------------------------------------------------------------------------
// git clean
// ---------------------------------------------------------------------------

/// What the options of `git clean` ask for.
#[derive(Clone, Copy)]
pub struct CleanAsk {
    pub force: bool,
    pub dry_run: bool,
    pub directories: bool,
    pub ignored_too: bool,
}

impl View for CleanAsk {
    type V = CleanAsk;

    open spec fn view(&self) -> CleanAsk {
        *self
    }
}

impl Syntax for CleanAsk {
    open spec fn wants(name: Seq<char>) -> Want {
        Want::Attached
    }

    open spec fn with(asked: CleanAsk, name: Seq<char>, value: Option<Seq<char>>) -> Result<
        CleanAsk,
        Seq<char>,
    > {
        if name == "-f"@ || name == "--force"@ {
            Ok(CleanAsk { force: true, ..asked })
        } else if name == "-n"@ || name == "--dry-run"@ {
            Ok(CleanAsk { dry_run: true, ..asked })
        } else if name == "-d"@ {
            Ok(CleanAsk { directories: true, ..asked })
        } else if name == "-q"@ || name == "--quiet"@ {
            Ok(asked)
        } else if name == "-x"@ {
            Ok(CleanAsk { ignored_too: true, ..asked })
        } else {
            Err("unsupported clean option: "@ + name)
        }
    }

    fn wanted(name: &str) -> (r: Want) {
        Want::Attached
    }

    fn apply(&mut self, name: &str, value: Option<String>) -> (r: Result<(), String>) {
        if same(name, "-f") || same(name, "--force") {
            self.force = true;
        } else if same(name, "-n") || same(name, "--dry-run") {
            self.dry_run = true;
        } else if same(name, "-d") {
            self.directories = true;
        } else if same(name, "-q") || same(name, "--quiet") {
        } else if same(name, "-x") {
            self.ignored_too = true;
        } else {
            return Err(join2("unsupported clean option: ", name));
        }
        Ok(())
    }
}

/// What `git clean` is asked for without any option.
pub open spec fn plain_clean() -> CleanAsk {
    CleanAsk { force: false, dry_run: false, directories: false, ignored_too: false }
}

/// Whether a path is at or below one of `paths`; without any, every path is.
pub open spec fn reached(paths: Seq<Seq<char>>, path: Seq<char>) -> bool {
    paths.len() == 0 || exists|i: int|
        0 <= i < paths.len() && at_or_below(#[trigger] paths[i], path)
}

fn is_reached(paths: &[String], path: &str) -> (r: bool)
    ensures
        r == reached(texts(paths@), path@),
{
    if paths.len() == 0 {
        return true;
    }
    let ghost all = texts(paths@);
    let mut i: usize = 0;
    while i < paths.len()
        invariant
            i <= paths.len(),
            all == texts(paths@),
            forall|k: int| 0 <= k < i ==> !at_or_below(#[trigger] all[k], path@),
        decreases paths.len() - i,
    {
        assert(all[i as int] == paths@[i as int]@);
        if is_at_or_below(paths[i].as_str(), path) {
            return true;
        }
        i += 1;
    }
    false
}

/// The test for untracked paths that are cleaned.
pub open spec fn stray_test(index: Files, rules: Seq<Rule>, ignored_too: bool, paths: Seq<Seq<char>>) -> spec_fn(
    Seq<char>,
) -> bool {
    |p: Seq<char>|
        lookup(index, p) is None && (ignored_too || !ignores(rules, p)) && reached(paths, p)
}

/// The test for entries that are removed: directories only where that is asked for.
pub open spec fn removable_test(directories: bool) -> spec_fn(Seq<char>) -> bool {
    |p: Seq<char>| directories || !ends(p, "/"@)
}

/// What is removed: files, and directories that hold nothing tracked.
pub open spec fn clean_list(
    index: Files,
    work: Files,
    rules: Seq<Rule>,
    asked: CleanAsk,
    paths: Seq<Seq<char>>,
) -> Seq<Seq<char>> {
    let v = kept(keys_of(work), stray_test(index, rules, asked.ignored_too, paths));
    kept(keys_of(all_collapsed(index, v)), removable_test(asked.directories))
}

/// Removing one entry.
pub open spec fn entry_removed(m: Machine, root: Seq<char>, entry: Seq<char>) -> (
    Machine,
    Result<(), Refusal>,
) {
    let path = below(root, without_trailing(entry, '/'));
    if ends(entry, "/"@) {
        settled(m, without_tree(m.files, path))
    } else {
        settled(m, without_file(m.files, path))
    }
}

/// Removing the entries from `i` on.
pub open spec fn cleaned(
    m: Machine,
    s: Screen,
    root: Seq<char>,
    v: Seq<Seq<char>>,
    i: int,
    dry_run: bool,
) -> Done
    decreases v.len() - i,
{
    if i < 0 || i >= v.len() {
        Done { m, s, status: 0 }
    } else if dry_run {
        cleaned(m, printed(s, "Would remove "@ + v[i] + "\n"@), root, v, i + 1, dry_run)
    } else {
        match entry_removed(m, root, v[i]) {
            (n, Ok(())) => cleaned(
                n,
                printed(s, "Removing "@ + v[i] + "\n"@),
                root,
                v,
                i + 1,
                dry_run,
            ),
            (n, Err(_)) => cleaned(
                n,
                complained(s, "warning: failed to remove "@ + v[i] + "\n"@),
                root,
                v,
                i + 1,
                dry_run,
            ),
        }
    }
}

/// Whether a name is a path below a directory: no part of it is empty.
pub open spec fn plain_path(path: Seq<char>) -> bool {
    &&& path.len() > 0
    &&& path[0] != '/'
    &&& path.last() != '/'
    &&& forall|i: int| 0 < i < path.len() && #[trigger] path[i] == '/' ==> path[i - 1] != '/'
}

proof fn lemma_inside_removed(d: Disk, paths: Seq<Seq<char>>, at: Seq<char>)
    requires
        !paths.contains(at),
    ensures
        lookup(without_all(d, paths), at) == lookup(d, at),
    decreases paths.len(),
{
    if paths.len() > 0 {
        let less = paths.drop_last();
        if less.contains(at) {
            let i = choose|i: int| 0 <= i < less.len() && less[i] == at;
            assert(paths[i] == at);
        }
        assert(paths[paths.len() - 1] != at);
        lemma_inside_removed(d, less, at);
        lemma_other_key_stays(without_all(d, less), paths.last(), at);
    }
}

proof fn lemma_paths_inside(d: Disk, dir: Seq<char>, i: int)
    requires
        0 <= i < paths_inside(d, dir).len(),
    ensures
        inside(dir, paths_inside(d, dir)[i]),
    decreases d.len(),
{
    if d.len() > 0 {
        let less = d.drop_last();
        if i < paths_inside(less, dir).len() {
            lemma_paths_inside(less, dir, i);
        }
    }
}

proof fn lemma_entry_spares(
    m: Machine,
    root: Seq<char>,
    index: Files,
    stray: Seq<char>,
    path: Seq<char>,
)
    requires
        lookup(index, path) is Some,
        lookup(index, stray) is None,
        plain_path(stray),
        !starts(stray, path + "/"@),
    ensures
        lookup(entry_removed(m, root, collapsed(index, stray)).0.files, below(root, path)) == lookup(
            m.files,
            below(root, path),
        ),
{
    reveal_strlit("/");
    let entry = collapsed(index, stray);
    let k = lemma_collapsed(index, stray);
    let at = below(root, path);
    if entry == stray {
        assert(!ends(entry, "/"@)) by {
            if ends(entry, "/"@) {
                assert(entry.subrange(entry.len() - 1, entry.len() as int)[0] == '/');
            }
        }
        lemma_places_differ(root, stray, path);
        lemma_other_key_stays(m.files, below(root, stray), at);
    } else {
        let q = stray.take(k - 1);
        assert(k > 1);
        assert(q.last() == stray[k - 2]);
        assert(q.last() != '/');
        assert(entry.drop_last() =~= q);
        assert(without_trailing(entry, '/') == without_trailing(q, '/'));
        assert(without_trailing(q, '/') == q);
        assert(entry =~= q + "/"@);
        assert(ends(entry, "/"@)) by {
            assert(entry.subrange(entry.len() - 1, entry.len() as int) =~= "/"@);
        }
        let dir = below(root, q);
        assert(dir.len() > 1);
        assert(!inside(dir, at)) by {
            if at == dir {
                if path != q {
                    lemma_places_differ(root, path, q);
                }
                assert(stray.subrange(0, k) =~= path + "/"@);
                assert(starts(stray, path + "/"@));
            } else if starts(at, dir + "/"@) {
                let front = if root == "/"@ {
                    "/"@
                } else {
                    root + "/"@
                };
                assert(at =~= front + path);
                assert(dir + "/"@ =~= front + entry);
                assert(at.subrange(0, (front + entry).len() as int) == front + entry);
                assert(path.subrange(0, entry.len() as int) =~= entry) by {
                    assert forall|j: int| 0 <= j < entry.len() implies path[j] == entry[j] by {
                        assert((front + entry)[front.len() + j] == entry[j]);
                        assert(at.subrange(0, (front + entry).len() as int)[front.len() + j] == at[front.len()
                            + j]);
                    }
                }
                assert(starts(path, entry));
                let i = lemma_lookup_place(index, path);
                assert(starts(index[i].0, entry));
            }
        }
        let all = paths_inside(m.files, dir);
        if all.contains(at) {
            let i = choose|i: int| 0 <= i < all.len() && all[i] == at;
            lemma_paths_inside(m.files, dir, i);
        }
        lemma_inside_removed(m.files, all, at);
    }
}

/// Cleaning spares what is tracked: a file that the index knows stays as it is. Nothing stands below
/// it, and every name in the working tree is a proper path.
pub proof fn lemma_clean_spares_tracked(
    m: Machine,
    s: Screen,
    root: Seq<char>,
    index: Files,
    work: Files,
    rules: Seq<Rule>,
    asked: CleanAsk,
    paths: Seq<Seq<char>>,
    i: int,
    path: Seq<char>,
)
    requires
        lookup(index, path) is Some,
        forall|j: int|
            0 <= j < work.len() ==> plain_path((#[trigger] work[j]).0) && !starts(work[j].0, path + "/"@),
    ensures
        lookup(
            cleaned(m, s, root, clean_list(index, work, rules, asked, paths), i, asked.dry_run).m.files,
            below(root, path),
        ) == lookup(m.files, below(root, path)),
    decreases clean_list(index, work, rules, asked, paths).len() - i,
{
    let all = clean_list(index, work, rules, asked, paths);
    if 0 <= i < all.len() {
        if asked.dry_run {
            let t = printed(s, "Would remove "@ + all[i] + "\n"@);
            lemma_clean_spares_tracked(m, t, root, index, work, rules, asked, paths, i + 1, path);
        } else {
            let test = stray_test(index, rules, asked.ignored_too, paths);
            let v = kept(keys_of(work), test);
            let entries = keys_of(all_collapsed(index, v));
            lemma_kept_passes(entries, removable_test(asked.directories), all[i]);
            let j = lemma_all_collapsed(index, v, all[i]);
            let stray = v[j];
            lemma_kept_passes(keys_of(work), test, stray);
            let k = choose|k: int| 0 <= k < keys_of(work).len() && keys_of(work)[k] == stray;
            assert(work[k].0 == stray);
            lemma_entry_spares(m, root, index, stray, path);
            let n = entry_removed(m, root, all[i]).0;
            let t = match entry_removed(m, root, all[i]).1 {
                Ok(()) => printed(s, "Removing "@ + all[i] + "\n"@),
                Err(_) => complained(s, "warning: failed to remove "@ + all[i] + "\n"@),
            };
            lemma_clean_spares_tracked(n, t, root, index, work, rules, asked, paths, i + 1, path);
        }
    }
}

/// `git clean`.
pub open spec fn clean_done(m: Machine, s: Screen, args: Seq<Seq<char>>) -> Done {
    match repo_root(m) {
        None => no_repo(m, s),
        Some(root) => match words_read::<CleanAsk>(
            pass_for(args, "fdnxq"@, ""@),
            plain_clean(),
            seq![],
        ) {
            Err(message) => misused(m, s, message),
            Ok((asked, paths)) => if !asked.force && !asked.dry_run {
                failed(
                    m,
                    s,
                    "clean.requireForce is true and -f not given: refusing to clean"@,
                )
            } else {
                match index_needed(m, s, root) {
                    (t, Err(e)) => Done { m, s: t, status: e },
                    (t, Ok(index)) => match working_tree(m, root) {
                        (n, Err(e)) => Done { m: n, s: t, status: e },
                        (n, Ok(work)) => cleaned(
                            n,
                            t,
                            root,
                            clean_list(index, work, ignore_rules(n, root), asked, paths),
                            0,
                            asked.dry_run,
                        ),
                    },
                }
            },
        },
    }
}

fn list_stray(index: &Tree, work: &Tree, rules: &IgnoreRules, ignored_too: bool, paths: &[String]) -> (r:
    Vec<String>)
    ensures
        texts(r@) == kept(
            keys_of(work@),
            stray_test(index@, rules@, ignored_too, texts(paths@)),
        ),
{
    let ghost test = stray_test(index@, rules@, ignored_too, texts(paths@));
    let ghost all = keys_of(work@);
    let mut v: Vec<String> = Vec::new();
    let mut i: usize = 0;
    assert(texts(v@) =~= seq![]);
    while i < work.len()
        invariant
            i <= work@.len(),
            all == keys_of(work@),
            test == stray_test(index@, rules@, ignored_too, texts(paths@)),
            texts(v@) == kept(all.take(i as int), test),
        decreases work@.len() - i,
    {
        broadcast use lemma_texts_push;

        assert(all.take(i + 1).drop_last() =~= all.take(i as int));
        let p = work.key_at(i);
        assert(all.take(i + 1).last() == p@);
        if !index.contains_key(p) && (ignored_too || !rules.is_ignored(p)) && is_reached(paths, p) {
            v.push(copy_text(p));
        }
        i += 1;
    }
    assert(all.take(i as int) =~= all);
    v
}

fn list_clean(
    index: &Tree,
    work: &Tree,
    rules: &IgnoreRules,
    asked: CleanAsk,
    paths: &[String],
) -> (r: Vec<String>)
    ensures
        texts(r@) == clean_list(index@, work@, rules@, asked, texts(paths@)),
{
    let stray = list_stray(index, work, rules, asked.ignored_too, paths);
    let list = collapse_untracked(index, stray.as_slice());
    let ghost test = removable_test(asked.directories);
    let ghost all = texts(list@);
    let mut v: Vec<String> = Vec::new();
    let mut i: usize = 0;
    assert(texts(v@) =~= seq![]);
    while i < list.len()
        invariant
            i <= list.len(),
            all == texts(list@),
            test == removable_test(asked.directories),
            texts(v@) == kept(all.take(i as int), test),
        decreases list.len() - i,
    {
        broadcast use lemma_texts_push;

        assert(all.take(i + 1).drop_last() =~= all.take(i as int));
        assert(all.take(i + 1).last() == list@[i as int]@);
        if asked.directories || !ends_with(list[i].as_str(), "/") {
            v.push(copy_text(list[i].as_str()));
        }
        i += 1;
    }
    assert(all.take(i as int) =~= all);
    v
}

fn remove_entry(system: &mut System, root: &str, entry: &str) -> (r: bool)
    ensures
        final(system)@ == entry_removed(old(system)@, root@, entry@).0,
        r == (entry_removed(old(system)@, root@, entry@).1 is Ok),
{
    let path = path_join(root, trim_end_matches(entry, '/').as_str());
    if ends_with(entry, "/") {
        system.remove_all(path.as_str()).is_ok()
    } else {
        system.unlink(path.as_str()).is_ok()
    }
}

/// `git clean`: removes untracked files.
pub fn git_clean(system: &mut System, args: &[String], io: &mut Io) -> (r: i32)
    ensures
        done(final(system)@, final(io)@, r) == clean_done(old(system)@, old(io)@, texts(args@)),
{
    let root = match find_repo_root(system) {
        Some(root) => root,
        None => return repo_error(io),
    };
    let start = CleanAsk { force: false, dry_run: false, directories: false, ignored_too: false };
    let (asked, paths) = match read_words(flags_for(args, "fdnxq", ""), start) {
        Ok(pair) => pair,
        Err(message) => return usage(io, message.as_str()),
    };
    if !asked.force && !asked.dry_run {
        return fatal(io, "clean.requireForce is true and -f not given: refusing to clean");
    }
    let index = match require_index(system, root.as_str(), io) {
        Ok(t) => t,
        Err(e) => return e,
    };
    let work = match collect_working_tree(system, root.as_str()) {
        Ok(t) => t,
        Err(e) => return e,
    };
    let rules = load_ignores(system, root.as_str());
    let v = list_clean(&index, &work, &rules, asked, paths.as_slice());
    let ghost all = texts(v@);
    let ghost goal = cleaned(system@, io@, root@, all, 0, asked.dry_run);
    let mut i: usize = 0;
    while i < v.len()
        invariant
            i <= v.len(),
            all == texts(v@),
            goal == cleaned(system@, io@, root@, all, i as int, asked.dry_run),
        decreases v.len() - i,
    {
        let entry = v[i].as_str();
        assert(all[i as int] == entry@);
        if asked.dry_run {
            io.print(join3("Would remove ", entry, "\n").as_str());
        } else if remove_entry(system, root.as_str(), entry) {
            io.print(join3("Removing ", entry, "\n").as_str());
        } else {
            io.print_err(join3("warning: failed to remove ", entry, "\n").as_str());
        }
        i += 1;
    }
    0
}

// ---------------------------------------------------------------------------
// git ls-files
// ---------------------------------------------------------------------------

/// What the options of `git ls-files` ask for.
#[derive(Clone, Copy)]
pub struct LsAsk {
    pub nul: bool,
    pub error_unmatch: bool,
    pub cached: bool,
    pub modified: bool,
    pub deleted: bool,
    pub others: bool,
    pub stage: bool,
    pub unmerged: bool,
    pub exclude_standard: bool,
}

impl View for LsAsk {
    type V = LsAsk;

    open spec fn view(&self) -> LsAsk {
        *self
    }
}

impl Syntax for LsAsk {
    open spec fn wants(name: Seq<char>) -> Want {
        Want::Attached
    }

    open spec fn with(asked: LsAsk, name: Seq<char>, value: Option<Seq<char>>) -> Result<
        LsAsk,
        Seq<char>,
    > {
        if name == "-c"@ || name == "--cached"@ {
            Ok(LsAsk { cached: true, ..asked })
        } else if name == "-m"@ || name == "--modified"@ {
            Ok(LsAsk { modified: true, ..asked })
        } else if name == "-d"@ || name == "--deleted"@ {
            Ok(LsAsk { deleted: true, ..asked })
        } else if name == "-o"@ || name == "--others"@ {
            Ok(LsAsk { others: true, ..asked })
        } else if name == "-s"@ || name == "--stage"@ {
            Ok(LsAsk { stage: true, ..asked })
        } else if name == "-u"@ || name == "--unmerged"@ {
            Ok(LsAsk { unmerged: true, ..asked })
        } else if name == "--exclude-standard"@ {
            Ok(LsAsk { exclude_standard: true, ..asked })
        } else if name == "--error-unmatch"@ {
            Ok(LsAsk { error_unmatch: true, ..asked })
        } else if name == "--full-name"@ {
            Ok(asked)
        } else if name == "-z"@ {
            Ok(LsAsk { nul: true, ..asked })
        } else {
            Err("unsupported ls-files option: "@ + name)
        }
    }

    fn wanted(name: &str) -> (r: Want) {
        Want::Attached
    }

    fn apply(&mut self, name: &str, value: Option<String>) -> (r: Result<(), String>) {
        if same(name, "-c") || same(name, "--cached") {
            self.cached = true;
        } else if same(name, "-m") || same(name, "--modified") {
            self.modified = true;
        } else if same(name, "-d") || same(name, "--deleted") {
            self.deleted = true;
        } else if same(name, "-o") || same(name, "--others") {
            self.others = true;
        } else if same(name, "-s") || same(name, "--stage") {
            self.stage = true;
        } else if same(name, "-u") || same(name, "--unmerged") {
            self.unmerged = true;
        } else if same(name, "--exclude-standard") {
            self.exclude_standard = true;
        } else if same(name, "--error-unmatch") {
            self.error_unmatch = true;
        } else if same(name, "--full-name") {
        } else if same(name, "-z") {
            self.nul = true;
        } else {
            return Err(join2("unsupported ls-files option: ", name));
        }
        Ok(())
    }
}

/// What `git ls-files` is asked for without any option.
pub open spec fn plain_ls() -> LsAsk {
    LsAsk {
        nul: false,
        error_unmatch: false,
        cached: false,
        modified: false,
        deleted: false,
        others: false,
        stage: false,
        unmerged: false,
        exclude_standard: false,
    }
}

/// The line of one recorded side.
pub open spec fn stage_line(
    hash: Option<Seq<char>>,
    number: Seq<char>,
    path: Seq<char>,
    end: Seq<char>,
) -> Seq<char> {
    match hash {
        Some(h) => "100644 "@ + h + " "@ + number + "\t"@ + path + end,
        None => ""@,
    }
}

/// The recorded sides of the unmerged paths that are asked for.
pub open spec fn stage_lines(c: Conflicts, paths: Seq<Seq<char>>, end: Seq<char>) -> Seq<char>
    decreases c.len(),
{
    if c.len() == 0 {
        ""@
    } else {
        let head = stage_lines(c.drop_last(), paths, end);
        let (path, u) = c.last();
        if paths.len() > 0 && !some_matches(paths, path) {
            head
        } else {
            head + stage_line(u.base, "1"@, path, end) + stage_line(u.ours, "2"@, path, end)
                + stage_line(u.theirs, "3"@, path, end)
        }
    }
}

/// The test for paths that the working tree holds otherwise.
pub open spec fn altered_test(index: Files, work: Files) -> spec_fn(Seq<char>) -> bool {
    |p: Seq<char>| lookup(work, p) is Some && lookup(work, p) != lookup(index, p)
}

/// The test for paths that a tree does not hold.
pub open spec fn absent_test(t: Files) -> spec_fn(Seq<char>) -> bool {
    |p: Seq<char>| lookup(t, p) is None
}

/// The test for untracked paths that are not ignored.
pub open spec fn other_test(index: Files, rules: Seq<Rule>) -> spec_fn(Seq<char>) -> bool {
    |p: Seq<char>| lookup(index, p) is None && !ignores(rules, p)
}

/// The paths that are listed.
pub open spec fn ls_names(index: Files, work: Files, rules: Seq<Rule>, asked: LsAsk) -> Names {
    let plain = !asked.modified && !asked.deleted && !asked.others;
    let a = if asked.cached || plain {
        with_keys(seq![], index)
    } else {
        seq![]
    };
    let b = if asked.modified {
        with_names(a, kept(keys_of(index), altered_test(index, work)))
    } else {
        a
    };
    let c = if asked.deleted {
        with_names(b, kept(keys_of(index), absent_test(work)))
    } else {
        b
    };
    if asked.others {
        with_names(c, kept(keys_of(work), other_test(index, rules)))
    } else {
        c
    }
}

/// How a path is shown from a directory below the root; nothing for one outside it.
pub open spec fn ls_shown(prefix: Option<Seq<char>>, path: Seq<char>) -> Option<Seq<char>> {
    match prefix {
        None => Some(path),
        Some(d) => after_prefix(path, d + "/"@),
    }
}

/// The line of one path; nothing for one that is not asked for.
pub open spec fn ls_line(
    index: Files,
    prefix: Option<Seq<char>>,
    paths: Seq<Seq<char>>,
    asked: LsAsk,
    path: Seq<char>,
) -> Option<Seq<char>> {
    match ls_shown(prefix, path) {
        None => None,
        Some(shown) => if paths.len() > 0 && !some_matches(paths, shown) {
            None
        } else {
            let front = if asked.stage {
                (match lookup(index, path) {
                    Some(r) => mode_of(r) + " "@ + r.hash,
                    None => "100644 "@ + ""@,
                }) + " 0\t"@
            } else {
                ""@
            };
            Some(front + shown + line_end(asked.nul))
        },
    }
}

/// The lines of the listed paths.
pub open spec fn ls_lines(
    names: Names,
    index: Files,
    prefix: Option<Seq<char>>,
    paths: Seq<Seq<char>>,
    asked: LsAsk,
) -> Seq<char>
    decreases names.len(),
{
    if names.len() == 0 {
        ""@
    } else {
        ls_lines(names.drop_last(), index, prefix, paths, asked) + (match ls_line(
            index,
            prefix,
            paths,
            asked,
            names.last().0,
        ) {
            Some(line) => line,
            None => ""@,
        })
    }
}

/// Whether some path is listed.
pub open spec fn ls_any(
    names: Names,
    index: Files,
    prefix: Option<Seq<char>>,
    paths: Seq<Seq<char>>,
    asked: LsAsk,
) -> bool {
    exists|i: int|
        0 <= i < names.len() && ls_line(index, prefix, paths, asked, (#[trigger] names[i]).0) is Some
}

/// The end of `git ls-files`.
pub open spec fn ls_ended(
    m: Machine,
    s: Screen,
    root: Seq<char>,
    asked: LsAsk,
    paths: Seq<Seq<char>>,
    index: Files,
    work: Files,
) -> Done {
    let rules = if asked.others && asked.exclude_standard {
        ignore_rules(m, root)
    } else {
        seq![]
    };
    let names = ls_names(index, work, rules, asked);
    let prefix = relative(root, m.cwd);
    let t = printed(s, ls_lines(names, index, prefix, paths, asked));
    if asked.error_unmatch && !ls_any(names, index, prefix, paths, asked) {
        Done {
            m,
            s: complained(t, "error: pathspec did not match any files\n"@),
            status: 1,
        }
    } else {
        Done { m, s: t, status: 0 }
    }
}

/// `git ls-files`.
pub open spec fn ls_done(m: Machine, s: Screen, args: Seq<Seq<char>>) -> Done {
    match repo_root(m) {
        None => no_repo(m, s),
        Some(root) => match words_read::<LsAsk>(
            pass_for(args, "cmdosuz"@, ""@),
            plain_ls(),
            seq![],
        ) {
            Err(message) => misused(m, s, message),
            Ok((asked, paths)) => if asked.unmerged {
                Done {
                    m,
                    s: printed(
                        s,
                        stage_lines(conflicts_of(m, root), paths, line_end(asked.nul)),
                    ),
                    status: 0,
                }
            } else {
                let index = index_or_empty(m, root);
                if asked.modified || asked.deleted || asked.others {
                    match working_tree(m, root) {
                        (n, Err(e)) => Done { m: n, s, status: e },
                        (n, Ok(work)) => ls_ended(n, s, root, asked, paths, index, work),
                    }
                } else {
                    ls_ended(m, s, root, asked, paths, index, seq![])
                }
            },
        },
    }
}

fn end_of(nul: bool) -> (r: &'static str)
    ensures
        r@ == line_end(nul),
{
    if nul {
        "\0"
    } else {
        "\n"
    }
}

fn stage_text(hash: &Option<String>, number: &str, path: &str, end: &str) -> (r: String)
    ensures
        r@ == stage_line(opt_text(*hash), number@, path@, end@),
{
    match hash {
        Some(h) => {
            let mut line = join5("100644 ", h.as_str(), " ", number, "\t");
            line.append(path);
            line.append(end);
            line
        },
        None => copy_text(""),
    }
}

fn stages_listed(stages: &Stages, paths: &[String], end: &str) -> (r: String)
    ensures
        r@ == stage_lines(stages@, texts(paths@), end@),
{
    let ghost all = stages@;
    let mut out = copy_text("");
    let mut i: usize = 0;
    while i < stages.len()
        invariant
            i <= all.len(),
            all == stages@,
            out@ == stage_lines(all.take(i as int), texts(paths@), end@),
        decreases all.len() - i,
    {
        assert(all.take(i + 1).drop_last() =~= all.take(i as int));
        assert(texts(paths@).len() == paths@.len());
        let path = stages.key_at(i);
        let u = stages.value_at(i);
        if paths.len() == 0 || any_matches(paths, path) {
            out.append(stage_text(&u.base, "1", path, end).as_str());
            out.append(stage_text(&u.ours, "2", path, end).as_str());
            out.append(stage_text(&u.theirs, "3", path, end).as_str());
        }
        i += 1;
    }
    assert(all.take(i as int) =~= all);
    out
}

fn list_altered(index: &Tree, work: &Tree) -> (r: Vec<String>)
    ensures
        texts(r@) == kept(keys_of(index@), altered_test(index@, work@)),
{
    let ghost all = keys_of(index@);
    let mut v: Vec<String> = Vec::new();
    let mut i: usize = 0;
    assert(texts(v@) =~= seq![]);
    while i < index.len()
        invariant
            i <= index@.len(),
            all == keys_of(index@),
            texts(v@) == kept(all.take(i as int), altered_test(index@, work@)),
        decreases index@.len() - i,
    {
        broadcast use lemma_texts_push;

        assert(all.take(i + 1).drop_last() =~= all.take(i as int));
        let p = index.key_at(i);
        assert(all.take(i + 1).last() == p@);
        let current = work.get(p);
        if current.is_some() && !same_entry(current, index.get(p)) {
            v.push(copy_text(p));
        }
        i += 1;
    }
    assert(all.take(i as int) =~= all);
    v
}

fn list_absent(index: &Tree, work: &Tree) -> (r: Vec<String>)
    ensures
        texts(r@) == kept(keys_of(index@), absent_test(work@)),
{
    let ghost all = keys_of(index@);
    let mut v: Vec<String> = Vec::new();
    let mut i: usize = 0;
    assert(texts(v@) =~= seq![]);
    while i < index.len()
        invariant
            i <= index@.len(),
            all == keys_of(index@),
            texts(v@) == kept(all.take(i as int), absent_test(work@)),
        decreases index@.len() - i,
    {
        broadcast use lemma_texts_push;

        assert(all.take(i + 1).drop_last() =~= all.take(i as int));
        let p = index.key_at(i);
        assert(all.take(i + 1).last() == p@);
        if !work.contains_key(p) {
            v.push(copy_text(p));
        }
        i += 1;
    }
    assert(all.take(i as int) =~= all);
    v
}

fn list_others(index: &Tree, work: &Tree, rules: &IgnoreRules) -> (r: Vec<String>)
    ensures
        texts(r@) == kept(keys_of(work@), other_test(index@, rules@)),
{
    let ghost all = keys_of(work@);
    let mut v: Vec<String> = Vec::new();
    let mut i: usize = 0;
    assert(texts(v@) =~= seq![]);
    while i < work.len()
        invariant
            i <= work@.len(),
            all == keys_of(work@),
            texts(v@) == kept(all.take(i as int), other_test(index@, rules@)),
        decreases work@.len() - i,
    {
        broadcast use lemma_texts_push;

        assert(all.take(i + 1).drop_last() =~= all.take(i as int));
        let p = work.key_at(i);
        assert(all.take(i + 1).last() == p@);
        if !index.contains_key(p) && !rules.is_ignored(p) {
            v.push(copy_text(p));
        }
        i += 1;
    }
    assert(all.take(i as int) =~= all);
    v
}

fn list_names(index: &Tree, work: &Tree, rules: &IgnoreRules, asked: LsAsk) -> (r: OrdMap<()>)
    ensures
        r@ == ls_names(index@, work@, rules@, asked),
{
    let mut names: OrdMap<()> = OrdMap::new();
    assert(names@ =~= seq![]);
    if asked.cached || (!asked.modified && !asked.deleted && !asked.others) {
        add_keys(&mut names, index);
    }
    if asked.modified {
        add_names(&mut names, list_altered(index, work).as_slice());
    }
    if asked.deleted {
        add_names(&mut names, list_absent(index, work).as_slice());
    }
    if asked.others {
        add_names(&mut names, list_others(index, work, rules).as_slice());
    }
    names
}

fn line_for(index: &Tree, prefix: &Option<String>, paths: &[String], asked: LsAsk, path: &str) -> (r:
    Option<String>)
    ensures
        opt_text(r) == ls_line(index@, opt_text(*prefix), texts(paths@), asked, path@),
{
    let shown = match prefix {
        None => copy_text(path),
        Some(d) => match strip_prefix(path, join2(d.as_str(), "/").as_str()) {
            Some(rest) => rest,
            None => return None,
        },
    };
    assert(texts(paths@).len() == paths@.len());
    if paths.len() > 0 && !any_matches(paths, shown.as_str()) {
        return None;
    }
    let mut line = if asked.stage {
        match index.get(path) {
            Some(e) => join4(e.mode(), " ", e.hash.as_str(), " 0\t"),
            None => join3("100644 ", "", " 0\t"),
        }
    } else {
        copy_text("")
    };
    line.append(shown.as_str());
    line.append(end_of(asked.nul));
    Some(line)
}

fn end_ls(
    system: &System,
    root: &str,
    asked: LsAsk,
    paths: &[String],
    index: &Tree,
    work: &Tree,
    io: &mut Io,
) -> (r: i32)
    ensures
        done(system@, final(io)@, r) == ls_ended(
            system@,
            old(io)@,
            root@,
            asked,
            texts(paths@),
            index@,
            work@,
        ),
{
    let rules = if asked.others && asked.exclude_standard {
        load_ignores(system, root)
    } else {
        let none = IgnoreRules::default();
        assert(none@ =~= seq![]);
        none
    };
    let names = list_names(index, work, &rules, asked);
    let prefix = relative_path(root, system.cwd().as_str());
    let ghost all = names@;
    let ghost d = opt_text(prefix);
    let ghost specs = texts(paths@);
    let mut out = copy_text("");
    let mut matched = false;
    let mut i: usize = 0;
    while i < names.len()
        invariant
            i <= all.len(),
            all == names@,
            d == opt_text(prefix),
            specs == texts(paths@),
            out@ == ls_lines(all.take(i as int), index@, d, specs, asked),
            matched == exists|k: int|
                0 <= k < i && ls_line(index@, d, specs, asked, (#[trigger] all[k]).0) is Some,
        decreases all.len() - i,
    {
        assert(all.take(i + 1).drop_last() =~= all.take(i as int));
        let path = names.key_at(i);
        match line_for(index, &prefix, paths, asked, path) {
            Some(line) => {
                assert(ls_line(index@, d, specs, asked, all[i as int].0) is Some);
                matched = true;
                out.append(line.as_str());
            },
            None => out.append(""),
        }
        i += 1;
    }
    assert(all.take(i as int) =~= all);
    io.print(out.as_str());
    if asked.error_unmatch && !matched {
        io.print_err("error: pathspec did not match any files\n");
        return 1;
    }
    0
}

/// `git ls-files`: lists files of the index and the working tree.
pub fn git_ls_files(system: &mut System, args: &[String], io: &mut Io) -> (r: i32)
    ensures
        done(final(system)@, final(io)@, r) == ls_done(old(system)@, old(io)@, texts(args@)),
{
    let root = match find_repo_root(system) {
        Some(root) => root,
        None => return repo_error(io),
    };
    let start = LsAsk {
        nul: false,
        error_unmatch: false,
        cached: false,
        modified: false,
        deleted: false,
        others: false,
        stage: false,
        unmerged: false,
        exclude_standard: false,
    };
    let (asked, paths) = match read_words(flags_for(args, "cmdosuz", ""), start) {
        Ok(pair) => pair,
        Err(message) => return usage(io, message.as_str()),
    };
    if asked.unmerged {
        let stages = load_stages(system, root.as_str());
        io.print(stages_listed(&stages, paths.as_slice(), end_of(asked.nul)).as_str());
        return 0;
    }
    let index = load_index_or_empty(system, root.as_str());
    let work = if asked.modified || asked.deleted || asked.others {
        match collect_working_tree(system, root.as_str()) {
            Ok(t) => t,
            Err(e) => return e,
        }
    } else {
        let none: Tree = OrdMap::new();
        assert(none@ =~= seq![]);
        none
    };
    end_ls(system, root.as_str(), asked, paths.as_slice(), &index, &work, io)
}

} // verus!
