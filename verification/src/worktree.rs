//! The working tree: what its files hold, and how it is moved from one tree to another.

use vstd::prelude::*;
use vstd::utf8::encode_utf8;

use crate::bytes::{bytes_of, decode_lossy, loose_text};
use crate::ignore::{
    add_patterns, rules_with, IgnoreRules, Rule, MAX_FILES, MAX_FILE_BYTES, MAX_PATTERNS,
};
use crate::objects::{blob_hash, blob_id};
use crate::order::{ascending, bind, lemma_bind_ascending, lookup, OrdMap};
use crate::repo::{
    blob_of, in_git, is_git_path, opt_bytes, read_blob, relative, relative_path, walk_paths, walked_paths,
};
use crate::system::{
    acts, after_acts, below, charged, disk_size, file_at, inside, is_inside, lemma_acts_push, lemma_parent_shorter,
    parent, parent_of, path_join, refusal_text, released, reserved, settled, thing_size, with_files, without_dir,
    Act, FileChange, Machine, Node, System, Thing, STOPPED,
};
use crate::text::{
    before_suffix, copy_bytes, copy_text, ends, ends_with, join4, lemma_texts_push, line_list, opt_text, same,
    strip_suffix, texts,
};
use crate::trees::{
    executable_mode, is_executable, work_bits, work_mode, Entry, Files, Record, Tree,
};

verus! {

/// The most files that one command examines in a working tree.
pub const MAX_WORKING_FILES: usize = 100_000;

/// `n`, or the largest 64-bit number where it is larger.
pub open spec fn capped(n: int) -> int {
    if n <= u64::MAX {
        n
    } else {
        u64::MAX as int
    }
}

/// `n`, or the largest 64-bit number where it is larger.
pub fn cap(n: u128) -> (r: u64)
    ensures
        r == capped(n as int),
{
    if n <= u64::MAX as u128 {
        n as u64
    } else {
        u64::MAX
    }
}

// ---------------------------------------------------------------------------
// Content
// ---------------------------------------------------------------------------

/// The bytes that are recorded for what stands at a path: the content of a file, the target of a
/// link, nothing for the rest.
pub open spec fn content_at(m: Machine, path: Seq<char>) -> Option<Seq<u8>> {
    match lookup(m.files, path) {
        Some(Thing::File { bytes, native, .. }) => if native || bytes.len() > m.memory_limit {
            None
        } else {
            Some(bytes)
        },
        Some(Thing::Symlink { target }) => Some(encode_utf8(target)),
        _ => None,
    }
}

/// The bytes that are recorded for what stands at a path.
fn tracked_content(system: &System, path: &str) -> (r: Option<Vec<u8>>)
    ensures
        opt_bytes(r) == content_at(system@, path@),
{
    match system.node(path) {
        Some(Node::File { bytes, native, .. }) => {
            if *native || (bytes.len() as u64) > system.memory_limit() {
                None
            } else {
                Some(copy_bytes(bytes.as_slice()))
            }
        },
        Some(Node::Symlink { target }) => Some(bytes_of(target.as_str())),
        _ => None,
    }
}

/// The bytes that are recorded for a path of the working tree.
pub open spec fn work_content(m: Machine, root: Seq<char>, path: Seq<char>) -> Option<Seq<u8>> {
    content_at(m, below(root, path))
}

/// The bytes that are recorded for a path of the working tree.
pub fn read_work_file(system: &System, root: &str, path: &str) -> (r: Option<Vec<u8>>)
    ensures
        opt_bytes(r) == work_content(system@, root@, path@),
{
    tracked_content(system, path_join(root, path).as_str())
}

/// Whether something can be tracked: a file that is no built-in program, or a link.
pub open spec fn trackable(t: Option<Thing>) -> bool {
    match t {
        Some(Thing::File { native, .. }) => !native,
        Some(Thing::Symlink { .. }) => true,
        _ => false,
    }
}

/// The path below the root of a file of the working tree.
pub open spec fn tracked_name(m: Machine, root: Seq<char>, path: Seq<char>) -> Option<Seq<char>> {
    if in_git(root, path) || !inside(root, path) || !trackable(lookup(m.files, path)) {
        None
    } else {
        relative(root, path)
    }
}

/// The files of the working tree among `paths`: absolute path and path below the root.
pub open spec fn tracked_among(m: Machine, root: Seq<char>, paths: Seq<Seq<char>>) -> Seq<
    (Seq<char>, Seq<char>),
>
    decreases paths.len(),
{
    if paths.len() == 0 {
        seq![]
    } else {
        let head = tracked_among(m, root, paths.drop_last());
        match tracked_name(m, root, paths.last()) {
            Some(name) => head.push((paths.last(), name)),
            None => head,
        }
    }
}

/// The length of all the names.
pub open spec fn name_bytes(v: Seq<(Seq<char>, Seq<char>)>) -> nat
    decreases v.len(),
{
    if v.len() == 0 {
        0
    } else {
        name_bytes(v.drop_last()) + encode_utf8(v.last().1).len()
    }
}

/// The size of what stands at a path.
pub open spec fn size_at(m: Machine, path: Seq<char>) -> nat {
    match lookup(m.files, path) {
        Some(t) => thing_size(t),
        None => 0,
    }
}

/// The size of all the files.
pub open spec fn file_bytes(m: Machine, v: Seq<(Seq<char>, Seq<char>)>) -> nat
    decreases v.len(),
{
    if v.len() == 0 {
        0
    } else {
        file_bytes(m, v.drop_last()) + size_at(m, v.last().0)
    }
}

/// What is recorded for the file at a path.
pub open spec fn record_at(m: Machine, path: Seq<char>) -> Option<Record> {
    match content_at(m, path) {
        Some(data) => Some(
            Record {
                hash: blob_id(data),
                executable: match lookup(m.files, path) {
                    Some(Thing::File { mode, .. }) => executable_mode(mode),
                    _ => false,
                },
                symlink: lookup(m.files, path) matches Some(Thing::Symlink { .. }),
            },
        ),
        None => None,
    }
}

/// The tree of the listed files.
pub open spec fn tree_among(m: Machine, v: Seq<(Seq<char>, Seq<char>)>) -> Files
    decreases v.len(),
{
    if v.len() == 0 {
        seq![]
    } else {
        let head = tree_among(m, v.drop_last());
        match record_at(m, v.last().0) {
            Some(r) => bind(head, v.last().1, r),
            None => head,
        }
    }
}

/// The files of the working tree.
pub open spec fn tracked_files(m: Machine, root: Seq<char>) -> Seq<(Seq<char>, Seq<char>)> {
    tracked_among(m, root, walked_paths(m, root))
}

/// The tree that the working tree holds, and the machine once its reading is paid for.
pub open spec fn working_tree(m: Machine, root: Seq<char>) -> (Machine, Result<Files, int>) {
    let v = tracked_files(m, root);
    let names = name_bytes(v) as int;
    let sizes = file_bytes(m, v) as int;
    let need = capped(names + capped((64 * v.len()) as int));
    let (kept, m1) = reserved(m, need);
    let (paid, m2) = charged(m1, capped(names + sizes));
    if names > u64::MAX || sizes > u64::MAX || v.len() > MAX_WORKING_FILES {
        (m, Err(STOPPED as int))
    } else if !kept {
        (m1, Err(STOPPED as int))
    } else if !paid {
        (released(m2, need), Err(STOPPED as int))
    } else {
        (released(m2, need), Ok(tree_among(m, v)))
    }
}

/// A working tree is listed in order.
pub proof fn lemma_work_ascending(m: Machine, v: Seq<(Seq<char>, Seq<char>)>)
    ensures
        ascending(tree_among(m, v)),
    decreases v.len(),
{
    if v.len() > 0 {
        lemma_work_ascending(m, v.drop_last());
        if let Some(r) = record_at(m, v.last().0) {
            lemma_bind_ascending(tree_among(m, v.drop_last()), v.last().1, r);
        }
    }
}

/// Reading the working tree takes some of the time that is left and nothing else: the memory that is
/// set aside for it is given back, also where the walk is stopped.
pub proof fn lemma_walk_gives_back(m: Machine, root: Seq<char>)
    ensures
        working_tree(m, root).0 == (Machine { cpu_left: working_tree(m, root).0.cpu_left, ..m }),
        working_tree(m, root).0.cpu_left <= m.cpu_left,
        working_tree(m, root).1 is Ok ==> working_tree(m, root).1->Ok_0 == tree_among(
            m,
            tracked_files(m, root),
        ),
{
}

/// The pairs of a list.
pub open spec fn pairs(v: Seq<(String, String)>) -> Seq<(Seq<char>, Seq<char>)> {
    v.map_values(|p: (String, String)| (p.0@, p.1@))
}

fn is_trackable(n: Option<&Node>) -> (r: bool)
    ensures
        r == trackable(
            match n {
                Some(x) => Some(x@),
                None => None,
            },
        ),
{
    match n {
        Some(Node::File { native, .. }) => !*native,
        Some(Node::Symlink { .. }) => true,
        _ => false,
    }
}

fn name_if_tracked(system: &System, root: &str, path: &str) -> (r: Option<String>)
    ensures
        opt_text(r) == tracked_name(system@, root@, path@),
{
    if is_git_path(root, path) || !is_inside(root, path) || !is_trackable(system.node(path)) {
        return None;
    }
    relative_path(root, path)
}

fn list_tracked(system: &System, root: &str) -> (r: Vec<(String, String)>)
    ensures
        pairs(r@) == tracked_files(system@, root@),
{
    let paths = walk_paths(system, root);
    let ghost all = texts(paths@);
    let mut out: Vec<(String, String)> = Vec::new();
    let mut i: usize = 0;
    assert(pairs(out@) =~= seq![]);
    while i < paths.len()
        invariant
            i <= paths.len(),
            all == texts(paths@),
            pairs(out@) == tracked_among(system@, root@, all.take(i as int)),
        decreases paths.len() - i,
    {
        assert(all.take(i + 1).drop_last() =~= all.take(i as int));
        assert(all.take(i + 1).last() == paths@[i as int]@);
        let ghost was = pairs(out@);
        if let Some(name) = name_if_tracked(system, root, paths[i].as_str()) {
            let p = (copy_text(paths[i].as_str()), name);
            out.push(p);
            assert(pairs(out@) =~= was.push((p.0@, p.1@)));
        }
        i += 1;
    }
    assert(all.take(i as int) =~= all);
    out
}

fn node_bytes(system: &System, path: &str) -> (r: usize)
    ensures
        r == size_at(system@, path@),
{
    match system.node(path) {
        Some(Node::File { bytes, .. }) => bytes.len(),
        Some(Node::Symlink { target }) => crate::text::chars_of(target.as_str()).len(),
        _ => 0,
    }
}

fn total_sizes(system: &System, v: &[(String, String)]) -> (r: (u128, u128))
    ensures
        r.0 == name_bytes(pairs(v@)),
        r.1 == file_bytes(system@, pairs(v@)),
{
    let ghost all = pairs(v@);
    let mut names: u128 = 0;
    let mut sizes: u128 = 0;
    let mut i: usize = 0;
    while i < v.len()
        invariant
            i <= v.len(),
            all == pairs(v@),
            names == name_bytes(all.take(i as int)),
            sizes == file_bytes(system@, all.take(i as int)),
            names <= i * 0xffff_ffff_ffff_ffff,
            sizes <= i * 0xffff_ffff_ffff_ffff,
        decreases v.len() - i,
    {
        assert(all.take(i + 1).drop_last() =~= all.take(i as int));
        assert(all.take(i + 1).last() == (v@[i as int].0@, v@[i as int].1@));
        assert(i * 0xffff_ffff_ffff_ffff + 0xffff_ffff_ffff_ffff == (i + 1)
            * 0xffff_ffff_ffff_ffff);
        let a = v[i].1.as_str().as_bytes().len();
        let b = node_bytes(system, v[i].0.as_str());
        names = names + a as u128;
        sizes = sizes + b as u128;
        i += 1;
    }
    assert(all.take(i as int) =~= all);
    (names, sizes)
}

fn entry_at(system: &System, path: &str) -> (r: Option<Entry>)
    ensures
        match r {
            Some(e) => record_at(system@, path@) == Some(e@),
            None => record_at(system@, path@) is None,
        },
{
    let data = match tracked_content(system, path) {
        Some(d) => d,
        None => return None,
    };
    let (executable, symlink) = match system.node(path) {
        Some(Node::File { mode, .. }) => (is_executable(*mode), false),
        Some(Node::Symlink { .. }) => (false, true),
        _ => (false, false),
    };
    Some(Entry { hash: blob_hash(data.as_slice()), executable, symlink })
}

/// The tree that the working tree holds, paid for from the machine's budgets.
pub fn collect_working_tree(system: &mut System, root: &str) -> (r: Result<Tree, i32>)
    ensures
        ({
            let (after, result) = working_tree(old(system)@, root@);
            &&& final(system)@ == after
            &&& match r {
                Ok(t) => result == Ok::<Files, int>(t@),
                Err(e) => result == Err::<Files, int>(e as int),
            }
        }),
{
    let v = list_tracked(system, root);
    let ghost list = pairs(v@);
    let (names, sizes) = total_sizes(system, v.as_slice());
    assert(list.len() == v@.len());
    if names > u64::MAX as u128 || sizes > u64::MAX as u128 || v.len() > MAX_WORKING_FILES {
        return Err(STOPPED);
    }
    let need: u64 = cap(names + (cap(64 * (v.len() as u128)) as u128));
    if !system.reserve_memory(need) {
        return Err(STOPPED);
    }
    if !system.charge_cpu(cap(names + sizes)) {
        system.release_memory(need);
        return Err(STOPPED);
    }
    let ghost m = old(system)@;
    let mut files: Tree = OrdMap::new();
    let mut i: usize = 0;
    assert(files@ =~= seq![]);
    while i < v.len()
        invariant
            i <= v.len(),
            list == pairs(v@),
            system@.files == m.files,
            system@.memory_limit == m.memory_limit,
            files@ == tree_among(m, list.take(i as int)),
        decreases v.len() - i,
    {
        assert(list.take(i + 1).drop_last() =~= list.take(i as int));
        assert(list.take(i + 1).last() == (v@[i as int].0@, v@[i as int].1@));
        assert(record_at(system@, v@[i as int].0@) == record_at(m, v@[i as int].0@));
        if let Some(e) = entry_at(system, v[i].0.as_str()) {
            files.insert(copy_text(v[i].1.as_str()), e);
        }
        i += 1;
    }
    assert(list.take(i as int) =~= list);
    system.release_memory(need);
    Ok(files)
}

/// The name of the blob that the file at a path would be, and the machine once its reading is
/// paid for.
pub open spec fn metered_hash(m: Machine, path: Seq<char>) -> (
    Machine,
    Result<Option<Seq<char>>, int>,
) {
    match lookup(m.files, path) {
        Some(Thing::Symlink { target }) => {
            let data = encode_utf8(target);
            let (paid, m1) = charged(m, data.len() as int);
            if paid {
                (m1, Ok(Some(blob_id(data))))
            } else {
                (m1, Err(STOPPED as int))
            }
        },
        Some(Thing::File { bytes, .. }) => {
            let n = bytes.len() as int;
            let (kept, m1) = reserved(m, n);
            let (paid, m2) = charged(m1, n);
            if !kept {
                (m1, Err(STOPPED as int))
            } else if !paid {
                (released(m2, n), Err(STOPPED as int))
            } else {
                (released(m2, n), Ok(Some(blob_id(bytes))))
            }
        },
        _ => (m, Ok(None)),
    }
}

/// What a result that may hold a name says.
pub open spec fn hash_result(r: Result<Option<String>, i32>) -> Result<Option<Seq<char>>, int> {
    match r {
        Ok(o) => Ok(opt_text(o)),
        Err(e) => Err(e as int),
    }
}

/// The name of the blob that the file at a path would be, its reading paid for.
pub fn metered_file_hash(system: &mut System, path: &str) -> (r: Result<Option<String>, i32>)
    ensures
        (final(system)@, hash_result(r)) == metered_hash(old(system)@, path@),
{
    let data = match system.node(path) {
        Some(Node::Symlink { target }) => {
            let data = bytes_of(target.as_str());
            if !system.charge_cpu(data.len() as u64) {
                return Err(STOPPED);
            }
            return Ok(Some(blob_hash(data.as_slice())));
        },
        Some(Node::File { bytes, .. }) => copy_bytes(bytes.as_slice()),
        _ => return Ok(None),
    };
    let n = data.len() as u64;
    if !system.reserve_memory(n) {
        return Err(STOPPED);
    }
    if !system.charge_cpu(n) {
        system.release_memory(n);
        return Err(STOPPED);
    }
    system.release_memory(n);
    Ok(Some(blob_hash(data.as_slice())))
}

// ---------------------------------------------------------------------------
// Moving the working tree
// ---------------------------------------------------------------------------

/// The machine without the directories above `path` that are empty, up to the root.
pub open spec fn pruned(m: Machine, root: Seq<char>, path: Seq<char>) -> Machine
    decreases path.len(),
{
    match parent(path) {
        None => m,
        Some(d) => {
            proof {
                lemma_parent_shorter(path);
            }
            if d == root || !inside(root, d) || in_git(root, d) {
                m
            } else {
                match without_dir(m.files, d) {
                    Ok(f) => pruned(with_files(m, f), root, d),
                    Err(_) => m,
                }
            }
        },
    }
}

/// Removes the directories that a deletion left empty, up to the root of the repository.
pub fn prune_empty_parents(system: &mut System, root: &str, path: &str)
    ensures
        final(system)@ == pruned(old(system)@, root@, path@),
{
    let mut current = copy_text(path);
    let ghost goal = pruned(system@, root@, path@);
    loop
        invariant
            goal == pruned(system@, root@, current@),
            goal == pruned(old(system)@, root@, path@),
        decreases current@.len(),
    {
        proof {
            lemma_parent_shorter(current@);
        }
        let d = match parent_of(current.as_str()) {
            Some(d) => d,
            None => return ,
        };
        if same(d.as_str(), root) || !is_inside(root, d.as_str()) || is_git_path(root, d.as_str()) {
            return ;
        }
        match system.rmdir(d.as_str()) {
            Ok(()) => {},
            Err(_) => return ,
        }
        current = d;
    }
}

/// The machine once the empty directories above each of `paths` are gone.
pub open spec fn all_pruned(m: Machine, root: Seq<char>, paths: Seq<Seq<char>>) -> Machine
    decreases paths.len(),
{
    if paths.len() == 0 {
        m
    } else {
        pruned(all_pruned(m, root, paths.drop_last()), root, below(root, paths.last()))
    }
}

/// The paths of `old_tree` that `new_tree` does not hold.
pub open spec fn gone(old_tree: Files, new_tree: Files) -> Seq<Seq<char>>
    decreases old_tree.len(),
{
    if old_tree.len() == 0 {
        seq![]
    } else if lookup(new_tree, old_tree.last().0) is None {
        gone(old_tree.drop_last(), new_tree).push(old_tree.last().0)
    } else {
        gone(old_tree.drop_last(), new_tree)
    }
}

/// The removals of the files at `paths`.
pub open spec fn removals(m: Machine, root: Seq<char>, paths: Seq<Seq<char>>) -> Seq<Act>
    decreases paths.len(),
{
    if paths.len() == 0 {
        seq![]
    } else {
        let head = removals(m, root, paths.drop_last());
        if file_at(m.files, below(root, paths.last())) {
            head.push(Act::RemoveFile(below(root, paths.last())))
        } else {
            head
        }
    }
}

/// Whether a path keeps what the working tree holds: the move does not change it, and there is a
/// file.
pub open spec fn left_alone(
    m: Machine,
    root: Seq<char>,
    old_tree: Files,
    path: Seq<char>,
    r: Record,
    force: bool,
) -> bool {
    !force && lookup(old_tree, path) == Some(r) && file_at(m.files, below(root, path))
}

/// The change that puts an entry in its place.
pub open spec fn placement(root: Seq<char>, path: Seq<char>, r: Record, data: Seq<u8>) -> Act {
    if r.symlink {
        Act::PutSymlink { link: below(root, path), target: loose_text(data) }
    } else {
        Act::PutFile { path: below(root, path), bytes: data, mode: work_bits(r.executable) }
    }
}

/// The changes behind `head` that put the entries of `new_tree` from `i` on in their places; an error
/// where a blob is missing.
pub open spec fn placements(
    m: Machine,
    root: Seq<char>,
    old_tree: Files,
    new_tree: Files,
    force: bool,
    i: int,
    head: Seq<Act>,
) -> Result<Seq<Act>, Seq<char>>
    decreases new_tree.len() - i,
{
    if i < 0 || i >= new_tree.len() {
        Ok(head)
    } else {
        let (path, r) = new_tree[i];
        if left_alone(m, root, old_tree, path, r, force) {
            placements(m, root, old_tree, new_tree, force, i + 1, head)
        } else {
            match blob_of(m, root, r.hash) {
                None => Err("missing blob "@ + r.hash + " for "@ + path),
                Some(data) => placements(
                    m,
                    root,
                    old_tree,
                    new_tree,
                    force,
                    i + 1,
                    head.push(placement(root, path, r, data)),
                ),
            }
        }
    }
}

/// Moving the working tree from one tree to another, all of it or nothing.
pub open spec fn tree_moved(
    m: Machine,
    root: Seq<char>,
    old_tree: Files,
    new_tree: Files,
    force: bool,
) -> (Machine, Result<(), Seq<char>>) {
    let going = gone(old_tree, new_tree);
    match placements(m, root, old_tree, new_tree, force, 0, removals(m, root, going)) {
        Err(e) => (m, Err(e)),
        Ok(changes) => match settled(m, after_acts(m.files, changes, m.disk_limit as nat)) {
            (after, Ok(())) => (all_pruned(after, root, going), Ok(())),
            (after, Err(e)) => (after, Err(refusal_text(e))),
        },
    }
}

/// The memory that moving a working tree needs.
pub open spec fn move_memory(m: Machine) -> int {
    capped(capped(disk_size(m.files) as int) + 4096)
}

/// Moving the working tree with the memory for it set aside.
pub open spec fn tree_written(
    m: Machine,
    root: Seq<char>,
    old_tree: Files,
    new_tree: Files,
    force: bool,
) -> (Machine, Result<(), Seq<char>>) {
    let (kept, m1) = reserved(m, move_memory(m));
    if !kept {
        (m1, Err("memory limit exceeded"@))
    } else {
        let (m2, r) = tree_moved(m1, root, old_tree, new_tree, force);
        (released(m2, move_memory(m)), r)
    }
}

/// What a result with a message says.
pub open spec fn message_result(r: Result<(), String>) -> Result<(), Seq<char>> {
    match r {
        Ok(()) => Ok(()),
        Err(e) => Err(e@),
    }
}

fn list_gone(old_tree: &Tree, new_tree: &Tree) -> (r: Vec<String>)
    ensures
        texts(r@) == gone(old_tree@, new_tree@),
{
    let ghost all = old_tree@;
    let mut out: Vec<String> = Vec::new();
    let mut i: usize = 0;
    assert(texts(out@) =~= seq![]);
    while i < old_tree.len()
        invariant
            i <= all.len(),
            all == old_tree@,
            texts(out@) == gone(all.take(i as int), new_tree@),
        decreases all.len() - i,
    {
        broadcast use lemma_texts_push;

        assert(all.take(i + 1).drop_last() =~= all.take(i as int));
        if !new_tree.contains_key(old_tree.key_at(i)) {
            out.push(copy_text(old_tree.key_at(i)));
        }
        i += 1;
    }
    assert(all.take(i as int) =~= all);
    out
}

fn write_work_tree_changes(
    system: &mut System,
    root: &str,
    old_tree: &Tree,
    new_tree: &Tree,
    force: bool,
) -> (r: Result<(), String>)
    ensures
        (final(system)@, message_result(r)) == tree_moved(
            old(system)@,
            root@,
            old_tree@,
            new_tree@,
            force,
        ),
{
    let ghost m = system@;
    let going = list_gone(old_tree, new_tree);
    let ghost away = texts(going@);
    let mut changes: Vec<FileChange> = Vec::new();
    let mut i: usize = 0;
    assert(acts(changes@) =~= seq![]);
    while i < going.len()
        invariant
            i <= going.len(),
            away == texts(going@),
            system@ == m,
            acts(changes@) == removals(m, root@, away.take(i as int)),
        decreases going.len() - i,
    {
        broadcast use lemma_acts_push;

        assert(away.take(i + 1).drop_last() =~= away.take(i as int));
        assert(away.take(i + 1).last() == going@[i as int]@);
        let absolute = path_join(root, going[i].as_str());
        if system.is_file(absolute.as_str()) {
            changes.push(FileChange::RemoveFile(absolute));
        }
        i += 1;
    }
    assert(away.take(i as int) =~= away);
    let ghost first = acts(changes@);
    let ghost goal = placements(m, root@, old_tree@, new_tree@, force, 0, first);
    let mut j: usize = 0;
    while j < new_tree.len()
        invariant
            j <= new_tree@.len(),
            system@ == m,
            m == old(system)@,
            away == gone(old_tree@, new_tree@),
            first == removals(m, root@, away),
            goal == placements(m, root@, old_tree@, new_tree@, force, 0, first),
            goal == placements(
                m,
                root@,
                old_tree@,
                new_tree@,
                force,
                j as int,
                acts(changes@),
            ),
        decreases new_tree@.len() - j,
    {
        broadcast use lemma_acts_push;

        let path = new_tree.key_at(j);
        let entry = new_tree.value_at(j);
        let absolute = path_join(root, path);
        let unchanged = match old_tree.get(path) {
            Some(e) => e.same_as(entry),
            None => false,
        };
        j += 1;
        if !force && unchanged && system.is_file(absolute.as_str()) {
            continue ;
        }
        let data = match read_blob(system, root, entry.hash.as_str()) {
            Some(d) => d,
            None => return Err(
                join4("missing blob ", entry.hash.as_str(), " for ", path),
            ),
        };
        if entry.symlink {
            changes.push(
                FileChange::PutSymlink { link: absolute, target: decode_lossy(data.as_slice()) },
            );
        } else {
            changes.push(
                FileChange::PutFile {
                    path: absolute,
                    bytes: data,
                    mode: work_mode(entry.executable),
                },
            );
        }
    }
    match system.apply_file_batch(changes) {
        Ok(()) => {},
        Err(e) => return Err(e.message()),
    }
    let ghost after = system@;
    let mut k: usize = 0;
    while k < going.len()
        invariant
            k <= going.len(),
            away == texts(going@),
            system@ == all_pruned(after, root@, away.take(k as int)),
        decreases going.len() - k,
    {
        assert(away.take(k + 1).drop_last() =~= away.take(k as int));
        assert(away.take(k + 1).last() == going@[k as int]@);
        prune_empty_parents(system, root, path_join(root, going[k].as_str()).as_str());
        k += 1;
    }
    assert(away.take(k as int) =~= away);
    Ok(())
}

fn write_work_tree(
    system: &mut System,
    root: &str,
    old_tree: &Tree,
    new_tree: &Tree,
    force: bool,
) -> (r: Result<(), String>)
    ensures
        (final(system)@, message_result(r)) == tree_written(
            old(system)@,
            root@,
            old_tree@,
            new_tree@,
            force,
        ),
{
    let need = cap(system.disk_used() as u128 + 4096);
    if !system.reserve_memory(need) {
        return Err(copy_text("memory limit exceeded"));
    }
    let r = write_work_tree_changes(system, root, old_tree, new_tree, force);
    system.release_memory(need);
    r
}

/// Replaces the files that `old_tree` names by those that `new_tree` names. The whole update is made
/// or nothing is.
pub fn replace_work_tree(system: &mut System, root: &str, old_tree: &Tree, new_tree: &Tree) -> (r: Result<
    (),
    String,
>)
    ensures
        (final(system)@, message_result(r)) == tree_written(
            old(system)@,
            root@,
            old_tree@,
            new_tree@,
            true,
        ),
{
    write_work_tree(system, root, old_tree, new_tree, true)
}

/// Moves the working tree from `old_tree` to `new_tree` and leaves unchanged paths alone.
pub fn update_work_tree(system: &mut System, root: &str, old_tree: &Tree, new_tree: &Tree) -> (r: Result<
    (),
    String,
>)
    ensures
        (final(system)@, message_result(r)) == tree_written(
            old(system)@,
            root@,
            old_tree@,
            new_tree@,
            false,
        ),
{
    write_work_tree(system, root, old_tree, new_tree, false)
}

/// A move of the working tree that is refused leaves every file as it was.
pub proof fn lemma_refused_move(
    m: Machine,
    root: Seq<char>,
    old_tree: Files,
    new_tree: Files,
    force: bool,
)
    ensures
        tree_written(m, root, old_tree, new_tree, force).1 is Err ==> tree_written(
            m,
            root,
            old_tree,
            new_tree,
            force,
        ).0.files == m.files,
{
}

// ---------------------------------------------------------------------------
// Ignore files
// ---------------------------------------------------------------------------

/// The content of an ignore file below the root and the directory that it stands in; nothing for
/// other files and too large ones.
pub open spec fn ignore_file(m: Machine, root: Seq<char>, path: Seq<char>) -> Option<
    (Seq<char>, Seq<u8>),
> {
    match lookup(m.files, path) {
        Some(Thing::File { bytes, .. }) => if !ends(path, ".gitignore"@) || in_git(root, path)
            || bytes.len() > MAX_FILE_BYTES {
            None
        } else {
            match relative(root, path) {
                Some(r) => Some(
                    (
                        match before_suffix(r, ".gitignore"@) {
                            Some(base) => base,
                            None => ""@,
                        },
                        bytes,
                    ),
                ),
                None => None,
            }
        },
        _ => None,
    }
}

/// The rules once the ignore files among `paths` from `i` on are read, with `files` read before.
pub open spec fn rules_from(
    m: Machine,
    root: Seq<char>,
    paths: Seq<Seq<char>>,
    i: int,
    files: int,
    rules: Seq<Rule>,
) -> Seq<Rule>
    decreases paths.len() - i,
{
    if i < 0 || i >= paths.len() || files >= MAX_FILES || rules.len() >= MAX_PATTERNS {
        rules
    } else {
        match ignore_file(m, root, paths[i]) {
            Some((base, bytes)) => rules_from(
                m,
                root,
                paths,
                i + 1,
                files + 1,
                rules_with(rules, base, line_list(loose_text(bytes))),
            ),
            None => rules_from(m, root, paths, i + 1, files, rules),
        }
    }
}

/// The ignore rules of a repository.
pub open spec fn ignore_rules(m: Machine, root: Seq<char>) -> Seq<Rule> {
    rules_from(m, root, walked_paths(m, root), 0, 0, seq![])
}

/// The ignore rules of a repository.
pub fn load_ignores(system: &System, root: &str) -> (r: IgnoreRules)
    ensures
        r@ == ignore_rules(system@, root@),
{
    let paths = walk_paths(system, root);
    let ghost all = texts(paths@);
    let mut rules = IgnoreRules::default();
    let mut files: usize = 0;
    let mut i: usize = 0;
    assert(rules@ =~= seq![]);
    while i < paths.len()
        invariant
            i <= paths.len(),
            files <= i,
            all == texts(paths@),
            all == walked_paths(system@, root@),
            ignore_rules(system@, root@) == rules_from(
                system@,
                root@,
                all,
                i as int,
                files as int,
                rules@,
            ),
        decreases paths.len() - i,
    {
        assert(rules@.len() == rules.patterns@.len());
        if files >= MAX_FILES || rules.patterns.len() >= MAX_PATTERNS {
            return rules;
        }
        let path = paths[i].as_str();
        assert(all[i as int] == path@);
        if let Some(Node::File { bytes, .. }) = system.node(path) {
            if ends_with(path, ".gitignore") && !is_git_path(root, path) && bytes.len()
                <= MAX_FILE_BYTES {
                if let Some(r) = relative_path(root, path) {
                    let base = match strip_suffix(r.as_str(), ".gitignore") {
                        Some(base) => base,
                        None => copy_text(""),
                    };
                    files += 1;
                    let text = decode_lossy(bytes.as_slice());
                    add_patterns(&mut rules, base.as_str(), text.as_str());
                }
            }
        }
        i += 1;
    }
    rules
}

} // verus!
