//! The repository below `.git`: objects, trees, commits, references and settings.
//!
//! * `objects/<id>` holds the content of a blob.
//! * `commits/<id>.tree` holds a tree, with paths in hexadecimal.
//! * `commits/<id>.commit` holds a commit record.
//! * `index` holds the staged tree.
//! * `HEAD`, `refs/heads/*` and `refs/tags/*` hold references.
//! * `config` holds settings.

use vstd::prelude::*;
use vstd::utf8::encode_utf8;

use crate::bytes::{decode_lossy, loose_text};
use crate::hashes::{sha1_hex, sha1_text};
use crate::objects::{blob_hash, blob_id};
use crate::order::{lookup, OrdMap};
use crate::records::{note_bytes, note_of, note_text, Commit, Note};
use crate::system::{
    below, bytes_at, dir_at, file_at, inside, is_inside, lemma_parent_shorter, outcome, parent, parent_of,
    path_join, paths_inside, settled, with_thing, without_file, FileError, Machine, Refusal, System, Thing,
};
use crate::text::{
    after_prefix, chars_of, copy_text, first_pieces, join2, join3, join4, lemma_texts_push, line_list, lines,
    opt_text, same, splitn, starts, starts_with, strip_prefix, texts, trim, trim_start_matches, trimmed,
    without_leading,
};
use crate::trees::{parse_tree, serialize_tree, tree_bytes, tree_of, Files, Tree};

verus! {

/// What a write gives: the machine after it, and whether it was made.
pub type Written = (Machine, Result<(), Refusal>);

// ---------------------------------------------------------------------------
// Reading and writing
// ---------------------------------------------------------------------------

/// The bytes of a file that fits into memory.
pub open spec fn readable(m: Machine, path: Seq<char>) -> Option<Seq<u8>> {
    match bytes_at(m.files, path) {
        Some(b) => if b.len() <= m.memory_limit {
            Some(b)
        } else {
            None
        },
        None => None,
    }
}

/// What optional bytes hold.
pub open spec fn opt_bytes(o: Option<Vec<u8>>) -> Option<Seq<u8>> {
    match o {
        Some(b) => Some(b@),
        None => None,
    }
}

/// The bytes of a file that fits into memory.
pub fn read_all(system: &System, path: &str) -> (r: Option<Vec<u8>>)
    ensures
        opt_bytes(r) == readable(system@, path@),
{
    match system.read_file(path) {
        Some(b) => {
            if (b.len() as u64) <= system.memory_limit() {
                Some(b)
            } else {
                None
            }
        },
        None => None,
    }
}

/// The text of a file that fits into memory.
pub open spec fn readable_text(m: Machine, path: Seq<char>) -> Option<Seq<char>> {
    match readable(m, path) {
        Some(b) => Some(loose_text(b)),
        None => None,
    }
}

/// The text of a file that fits into memory.
pub fn read_text(system: &System, path: &str) -> (r: Option<String>)
    ensures
        opt_text(r) == readable_text(system@, path@),
{
    match read_all(system, path) {
        Some(b) => Some(decode_lossy(b.as_slice())),
        None => None,
    }
}

/// Writing a file with the directories above it.
pub open spec fn written(m: Machine, path: Seq<char>, bytes: Seq<u8>) -> Written {
    settled(
        m,
        with_thing(
            m.files,
            path,
            Thing::File { bytes, mode: 0o644, native: false },
            m.disk_limit as nat,
        ),
    )
}

/// Writes a file with the directories above it.
pub fn write_vfs(system: &mut System, path: &str, bytes: &[u8]) -> (r: Result<(), FileError>)
    ensures
        (final(system)@, outcome(r)) == written(old(system)@, path@, bytes@),
{
    system.put_file_with_parents(path, crate::text::copy_bytes(bytes), 0o644)
}

// ---------------------------------------------------------------------------
// Paths
// ---------------------------------------------------------------------------

/// The path of `suffix` inside the `.git` directory.
pub open spec fn git_file(root: Seq<char>, suffix: Seq<char>) -> Seq<char> {
    below(root, ".git/"@ + suffix)
}

/// The path of `suffix` inside the `.git` directory.
pub fn git_path(root: &str, suffix: &str) -> (r: String)
    ensures
        r@ == git_file(root@, suffix@),
{
    path_join(root, join2(".git/", suffix).as_str())
}

/// Whether a directory is the root of a repository.
pub open spec fn is_root(m: Machine, dir: Seq<char>) -> bool {
    dir_at(m.files, below(dir, ".git"@))
}

/// The nearest directory at or above `dir` that is the root of a repository.
pub open spec fn root_from(m: Machine, dir: Seq<char>) -> Option<Seq<char>>
    decreases dir.len(),
{
    if is_root(m, dir) {
        Some(dir)
    } else if dir == "/"@ {
        None
    } else {
        proof {
            lemma_parent_shorter(dir);
        }
        match parent(dir) {
            Some(p) => root_from(m, p),
            None => if is_root(m, "/"@) {
                Some("/"@)
            } else {
                None
            },
        }
    }
}

/// The root of the repository that the working directory lies in.
pub open spec fn repo_root(m: Machine) -> Option<Seq<char>> {
    root_from(m, m.cwd)
}

/// Finds the root of the repository that the working directory lies in.
pub fn find_repo_root(system: &System) -> (r: Option<String>)
    ensures
        opt_text(r) == repo_root(system@),
{
    let mut current = system.cwd();
    loop
        invariant
            repo_root(system@) == root_from(system@, current@),
        decreases current@.len(),
    {
        if system.is_dir(path_join(current.as_str(), ".git").as_str()) {
            return Some(current);
        }
        if same(current.as_str(), "/") {
            return None;
        }
        proof {
            lemma_parent_shorter(current@);
        }
        match parent_of(current.as_str()) {
            Some(p) => {
                current = p;
            },
            None => {
                if system.is_dir(path_join("/", ".git").as_str()) {
                    return Some(copy_text("/"));
                }
                return None;
            },
        }
    }
}

/// The path below `root` that an absolute path names, where it names one.
pub open spec fn relative(root: Seq<char>, path: Seq<char>) -> Option<Seq<char>> {
    if !inside(root, path) {
        None
    } else {
        let rest = if root == "/"@ {
            Some(without_leading(path, '/'))
        } else {
            match after_prefix(path, root) {
                Some(r) => Some(without_leading(r, '/')),
                None => None,
            }
        };
        match rest {
            Some(r) => if r.len() > 0 {
                Some(r)
            } else {
                None
            },
            None => None,
        }
    }
}

/// The path below `root` that an absolute path names, where it names one.
pub fn relative_path(root: &str, path: &str) -> (r: Option<String>)
    ensures
        opt_text(r) == relative(root@, path@),
{
    if !is_inside(root, path) {
        return None;
    }
    let rest = if same(root, "/") {
        trim_start_matches(path, '/')
    } else {
        match strip_prefix(path, root) {
            Some(r) => trim_start_matches(r.as_str(), '/'),
            None => return None,
        }
    };
    if rest.as_str().is_empty() {
        None
    } else {
        Some(rest)
    }
}

/// Whether a path is the `.git` directory or lies in it.
pub open spec fn in_git(root: Seq<char>, path: Seq<char>) -> bool {
    path == below(root, ".git"@) || starts(path, below(root, ".git"@) + "/"@)
}

/// Whether a path is the `.git` directory or lies in it.
pub fn is_git_path(root: &str, path: &str) -> (r: bool)
    ensures
        r == in_git(root@, path@),
{
    let git = path_join(root, ".git");
    same(path, git.as_str()) || starts_with(path, join2(git.as_str(), "/").as_str())
}

// ---------------------------------------------------------------------------
// The index and blobs
// ---------------------------------------------------------------------------

/// What an optional tree holds.
pub open spec fn opt_tree(o: Option<Tree>) -> Option<Files> {
    match o {
        Some(t) => Some(t@),
        None => None,
    }
}

/// The staged tree: empty where there is no index, nothing where it cannot be read.
pub open spec fn index_of(m: Machine, root: Seq<char>) -> Option<Files> {
    match readable(m, git_file(root, "index"@)) {
        Some(b) => tree_of(b),
        None => Some(seq![]),
    }
}

/// The staged tree: empty where there is no index, nothing where it cannot be read.
pub fn load_index(system: &System, root: &str) -> (r: Option<Tree>)
    ensures
        opt_tree(r) == index_of(system@, root@),
{
    match read_all(system, git_path(root, "index").as_str()) {
        Some(b) => parse_tree(b.as_slice()),
        None => Some(OrdMap::new()),
    }
}

/// Storing a staged tree.
pub open spec fn index_stored(m: Machine, root: Seq<char>, t: Files) -> Written {
    written(m, git_file(root, "index"@), tree_bytes(t))
}

/// Stores a staged tree.
pub fn store_index(system: &mut System, root: &str, index: &Tree) -> (r: Result<(), FileError>)
    ensures
        (final(system)@, outcome(r)) == index_stored(old(system)@, root@, index@),
{
    write_vfs(system, git_path(root, "index").as_str(), serialize_tree(index).as_slice())
}

/// Where a blob is kept.
pub open spec fn blob_file(root: Seq<char>, hash: Seq<char>) -> Seq<char> {
    git_file(root, "objects/"@ + hash)
}

/// The content of a blob.
pub open spec fn blob_of(m: Machine, root: Seq<char>, hash: Seq<char>) -> Option<Seq<u8>> {
    readable(m, blob_file(root, hash))
}

/// The content of a blob.
pub fn read_blob(system: &System, root: &str, hash: &str) -> (r: Option<Vec<u8>>)
    ensures
        opt_bytes(r) == blob_of(system@, root@, hash@),
{
    read_all(system, git_path(root, join2("objects/", hash).as_str()).as_str())
}

/// Storing a blob.
pub open spec fn blob_stored(m: Machine, root: Seq<char>, data: Seq<u8>) -> Written {
    written(m, blob_file(root, blob_id(data)), data)
}

/// What a write that gives a name says.
pub open spec fn named_outcome(r: Result<String, FileError>) -> Result<Seq<char>, Refusal> {
    match r {
        Ok(s) => Ok(s@),
        Err(e) => Err(e@),
    }
}

/// Stores a blob and gives its name.
pub fn write_blob(system: &mut System, root: &str, data: &[u8]) -> (r: Result<String, FileError>)
    ensures
        ({
            let (after, o) = blob_stored(old(system)@, root@, data@);
            &&& final(system)@ == after
            &&& match o {
                Ok(()) => named_outcome(r) == Ok::<Seq<char>, Refusal>(blob_id(data@)),
                Err(e) => named_outcome(r) == Err::<Seq<char>, Refusal>(e),
            }
        }),
{
    let hash = blob_hash(data);
    match write_vfs(system, git_path(root, join2("objects/", hash.as_str()).as_str()).as_str(), data) {
        Ok(()) => Ok(hash),
        Err(e) => Err(e),
    }
}

// ---------------------------------------------------------------------------
// Commits
// ---------------------------------------------------------------------------

/// What an optional commit record holds.
pub open spec fn opt_note(o: Option<Commit>) -> Option<Note> {
    match o {
        Some(c) => Some(c@),
        None => None,
    }
}

/// Where a commit record is kept.
pub open spec fn commit_file_at(root: Seq<char>, id: Seq<char>) -> Seq<char> {
    git_file(root, "commits/"@ + id + ".commit"@)
}

/// Where a committed tree is kept.
pub open spec fn tree_file_at(root: Seq<char>, id: Seq<char>) -> Seq<char> {
    git_file(root, "commits/"@ + id + ".tree"@)
}

fn commit_file(root: &str, id: &str) -> (r: String)
    ensures
        r@ == commit_file_at(root@, id@),
{
    git_path(root, join3("commits/", id, ".commit").as_str())
}

fn tree_file(root: &str, id: &str) -> (r: String)
    ensures
        r@ == tree_file_at(root@, id@),
{
    git_path(root, join3("commits/", id, ".tree").as_str())
}

/// The record of a commit.
pub open spec fn commit_of(m: Machine, root: Seq<char>, id: Seq<char>) -> Option<Note> {
    match readable(m, commit_file_at(root, id)) {
        Some(b) => note_of(b),
        None => None,
    }
}

/// The record of a commit.
pub fn load_commit(system: &System, root: &str, id: &str) -> (r: Option<Commit>)
    ensures
        opt_note(r) == commit_of(system@, root@, id@),
{
    match read_all(system, commit_file(root, id).as_str()) {
        Some(b) => Commit::parse(b.as_slice()),
        None => None,
    }
}

/// The tree of a commit.
pub open spec fn tree_at(m: Machine, root: Seq<char>, id: Seq<char>) -> Option<Files> {
    match readable(m, tree_file_at(root, id)) {
        Some(b) => tree_of(b),
        None => None,
    }
}

/// The tree of a commit.
pub fn commit_tree(system: &System, root: &str, id: &str) -> (r: Option<Tree>)
    ensures
        opt_tree(r) == tree_at(system@, root@, id@),
{
    match read_all(system, tree_file(root, id).as_str()) {
        Some(b) => parse_tree(b.as_slice()),
        None => None,
    }
}

/// The name of a commit: it differs wherever tree, parents, author, time or message do.
pub open spec fn commit_id(n: Note, t: Files) -> Seq<char> {
    sha1_text(encode_utf8("tree "@ + sha1_text(tree_bytes(t)) + "\n"@ + note_text(n)))
}

/// Storing a commit and its tree.
pub open spec fn commit_stored(m: Machine, root: Seq<char>, n: Note, t: Files) -> Written {
    let id = commit_id(n, t);
    match written(m, tree_file_at(root, id), tree_bytes(t)) {
        (after, Ok(())) => written(after, commit_file_at(root, id), note_bytes(n)),
        (after, Err(e)) => (after, Err(e)),
    }
}

/// Stores a commit and its tree, and gives its name.
pub fn store_commit(system: &mut System, root: &str, commit: &Commit, tree: &Tree) -> (r: Result<
    String,
    FileError,
>)
    ensures
        ({
            let (after, o) = commit_stored(old(system)@, root@, commit@, tree@);
            &&& final(system)@ == after
            &&& match o {
                Ok(()) => named_outcome(r) == Ok::<Seq<char>, Refusal>(commit_id(commit@, tree@)),
                Err(e) => named_outcome(r) == Err::<Seq<char>, Refusal>(e),
            }
        }),
{
    let bytes = serialize_tree(tree);
    let mut identity = join3("tree ", sha1_hex(bytes.as_slice()).as_str(), "\n");
    identity.append(commit.serialized_text().as_str());
    let id = sha1_hex(identity.as_str().as_bytes());
    match write_vfs(system, tree_file(root, id.as_str()).as_str(), bytes.as_slice()) {
        Ok(()) => {},
        Err(e) => return Err(e),
    }
    match write_vfs(
        system,
        commit_file(root, id.as_str()).as_str(),
        commit.serialize().as_slice(),
    ) {
        Ok(()) => Ok(id),
        Err(e) => Err(e),
    }
}

/// Where the note of a tag is kept.
pub open spec fn annotation_file(root: Seq<char>, name: Seq<char>) -> Seq<char> {
    git_file(root, "tags/"@ + name + ".annotation"@)
}

/// The note of a tag.
pub open spec fn annotation_of(m: Machine, root: Seq<char>, name: Seq<char>) -> Option<Note> {
    match readable(m, annotation_file(root, name)) {
        Some(b) => note_of(b),
        None => None,
    }
}

/// The note of a tag.
pub fn read_annotation(system: &System, root: &str, name: &str) -> (r: Option<Commit>)
    ensures
        opt_note(r) == annotation_of(system@, root@, name@),
{
    match read_all(system, git_path(root, join3("tags/", name, ".annotation").as_str()).as_str()) {
        Some(b) => Commit::parse(b.as_slice()),
        None => None,
    }
}

/// Stores the note of a tag.
pub fn write_annotation(system: &mut System, root: &str, name: &str, note: &Commit) -> (r: Result<
    (),
    FileError,
>)
    ensures
        (final(system)@, outcome(r)) == written(
            old(system)@,
            annotation_file(root@, name@),
            note_bytes(note@),
        ),
{
    write_vfs(
        system,
        git_path(root, join3("tags/", name, ".annotation").as_str()).as_str(),
        note.serialize().as_slice(),
    )
}

// ---------------------------------------------------------------------------
// References
// ---------------------------------------------------------------------------

/// A text without outer white space, where anything is left.
pub open spec fn some_text(o: Option<Seq<char>>) -> Option<Seq<char>> {
    match o {
        Some(s) => if trimmed(s).len() > 0 {
            Some(trimmed(s))
        } else {
            None
        },
        None => None,
    }
}

fn nonempty_text(o: Option<String>) -> (r: Option<String>)
    ensures
        opt_text(r) == some_text(opt_text(o)),
{
    match o {
        Some(s) => {
            let t = trim(s.as_str());
            if t.as_str().is_empty() {
                None
            } else {
                Some(t)
            }
        },
        None => None,
    }
}

/// The value of a reference.
pub open spec fn reference_of(m: Machine, root: Seq<char>, name: Seq<char>) -> Option<Seq<char>> {
    some_text(readable_text(m, git_file(root, name)))
}

/// The value of a reference.
pub fn read_reference(system: &System, root: &str, reference: &str) -> (r: Option<String>)
    ensures
        opt_text(r) == reference_of(system@, root@, reference@),
{
    nonempty_text(read_text(system, git_path(root, reference).as_str()))
}

/// What HEAD holds.
pub open spec fn head_text(m: Machine, root: Seq<char>) -> Option<Seq<char>> {
    match readable_text(m, git_file(root, "HEAD"@)) {
        Some(s) => Some(trimmed(s)),
        None => None,
    }
}

fn head_contents(system: &System, root: &str) -> (r: Option<String>)
    ensures
        opt_text(r) == head_text(system@, root@),
{
    match read_text(system, git_path(root, "HEAD").as_str()) {
        Some(s) => Some(trim(s.as_str())),
        None => None,
    }
}

/// The reference that HEAD points at; none where HEAD is detached.
pub open spec fn head_ref(m: Machine, root: Seq<char>) -> Option<Seq<char>> {
    match head_text(m, root) {
        Some(s) => after_prefix(s, "ref: "@),
        None => None,
    }
}

/// The reference that HEAD points at; none where HEAD is detached.
pub fn head_reference(system: &System, root: &str) -> (r: Option<String>)
    ensures
        opt_text(r) == head_ref(system@, root@),
{
    match head_contents(system, root) {
        Some(s) => strip_prefix(s.as_str(), "ref: "),
        None => None,
    }
}

/// The commit that HEAD stands on.
pub open spec fn head_id(m: Machine, root: Seq<char>) -> Option<Seq<char>> {
    match head_text(m, root) {
        None => None,
        Some(s) => match after_prefix(s, "ref: "@) {
            Some(name) => reference_of(m, root, name),
            None => if s.len() > 0 {
                Some(s)
            } else {
                None
            },
        },
    }
}

/// The commit that HEAD stands on.
pub fn head_commit(system: &System, root: &str) -> (r: Option<String>)
    ensures
        opt_text(r) == head_id(system@, root@),
{
    let head = match head_contents(system, root) {
        Some(s) => s,
        None => return None,
    };
    match strip_prefix(head.as_str(), "ref: ") {
        Some(name) => read_reference(system, root, name.as_str()),
        None => {
            if head.as_str().is_empty() {
                None
            } else {
                Some(head)
            }
        },
    }
}

/// The branch that HEAD is on.
pub open spec fn branch_of(m: Machine, root: Seq<char>) -> Option<Seq<char>> {
    match head_ref(m, root) {
        Some(name) => after_prefix(name, "refs/heads/"@),
        None => None,
    }
}

/// The branch that HEAD is on.
pub fn current_branch(system: &System, root: &str) -> (r: Option<String>)
    ensures
        opt_text(r) == branch_of(system@, root@),
{
    match head_reference(system, root) {
        Some(name) => strip_prefix(name.as_str(), "refs/heads/"),
        None => None,
    }
}

/// Writing a reference.
pub open spec fn reference_written(m: Machine, root: Seq<char>, name: Seq<char>, id: Seq<char>) -> Written {
    written(m, git_file(root, name), encode_utf8(id + "\n"@))
}

/// Writes a reference.
pub fn write_reference(system: &mut System, root: &str, reference: &str, commit: &str) -> (r: Result<
    (),
    FileError,
>)
    ensures
        (final(system)@, outcome(r)) == reference_written(
            old(system)@,
            root@,
            reference@,
            commit@,
        ),
{
    write_vfs(
        system,
        git_path(root, reference).as_str(),
        join2(commit, "\n").as_str().as_bytes(),
    )
}

/// Deletes a reference.
pub fn delete_reference(system: &mut System, root: &str, reference: &str) -> (r: Result<
    (),
    FileError,
>)
    ensures
        (final(system)@, outcome(r)) == settled(
            old(system)@,
            without_file(old(system)@.files, git_file(root@, reference@)),
        ),
{
    system.unlink(git_path(root, reference).as_str())
}

// ---------------------------------------------------------------------------
// Moves of HEAD
// ---------------------------------------------------------------------------

/// The most moves of HEAD that are kept.
pub const MAX_REFLOG_ENTRIES: usize = 1_000;

/// One recorded move of HEAD.
pub struct HeadMove {
    pub before: String,
    pub after: String,
    pub action: String,
}

impl View for HeadMove {
    type V = (Seq<char>, Seq<char>, Seq<char>);

    open spec fn view(&self) -> (Seq<char>, Seq<char>, Seq<char>) {
        (self.before@, self.after@, self.action@)
    }
}

/// A move of HEAD: from where, to where, and by what.
pub type Step = (Seq<char>, Seq<char>, Seq<char>);

/// The moves of a list.
pub open spec fn steps_of(v: Seq<HeadMove>) -> Seq<Step> {
    v.map_values(|x: HeadMove| x@)
}

/// The move that one line of the log records.
pub open spec fn step_of(line: Seq<char>) -> Option<Step> {
    let p = first_pieces(line, '\t', 3);
    if p.len() >= 2 {
        Some(
            (
                p[0],
                p[1],
                if p.len() > 2 {
                    p[2]
                } else {
                    ""@
                },
            ),
        )
    } else {
        None
    }
}

/// The moves that lines record, in their order.
pub open spec fn steps_in(lines: Seq<Seq<char>>) -> Seq<Step>
    decreases lines.len(),
{
    if lines.len() == 0 {
        seq![]
    } else {
        match step_of(lines.last()) {
            Some(x) => steps_in(lines.drop_last()).push(x),
            None => steps_in(lines.drop_last()),
        }
    }
}

/// The recorded moves of HEAD, oldest first.
pub open spec fn head_steps(m: Machine, root: Seq<char>) -> Seq<Step> {
    match readable_text(m, git_file(root, "logs/HEAD"@)) {
        Some(s) => steps_in(line_list(s)),
        None => seq![],
    }
}

fn parse_move(line: &str) -> (r: Option<HeadMove>)
    ensures
        match r {
            Some(x) => step_of(line@) == Some(x@),
            None => step_of(line@) is None,
        },
{
    let p = splitn(line, '\t', 3);
    let ghost q = first_pieces(line@, '\t', 3);
    if p.len() < 2 {
        return None;
    }
    assert(q[0] == p@[0]@ && q[1] == p@[1]@);
    let action = if p.len() > 2 {
        assert(q[2] == p@[2]@);
        copy_text(p[2].as_str())
    } else {
        copy_text("")
    };
    Some(
        HeadMove { before: copy_text(p[0].as_str()), after: copy_text(p[1].as_str()), action },
    )
}

/// The recorded moves of HEAD, oldest first.
fn moves_oldest_first(system: &System, root: &str) -> (r: Vec<HeadMove>)
    ensures
        steps_of(r@) == head_steps(system@, root@),
{
    let mut out: Vec<HeadMove> = Vec::new();
    assert(steps_of(out@) =~= seq![]);
    let text = match read_text(system, git_path(root, "logs/HEAD").as_str()) {
        Some(s) => s,
        None => return out,
    };
    let all = lines(text.as_str());
    let ghost list = line_list(text@);
    let mut i: usize = 0;
    while i < all.len()
        invariant
            i <= all.len(),
            texts(all@) == list,
            steps_of(out@) == steps_in(list.take(i as int)),
        decreases all.len() - i,
    {
        assert(list.take(i + 1).drop_last() =~= list.take(i as int));
        assert(list.take(i + 1).last() == all@[i as int]@);
        let ghost was = steps_of(out@);
        if let Some(x) = parse_move(all[i].as_str()) {
            out.push(x);
            assert(steps_of(out@) =~= was.push(x@));
        }
        i += 1;
    }
    assert(list.take(i as int) =~= list);
    out
}

/// The recorded moves of HEAD, newest first.
pub fn read_head_log(system: &System, root: &str) -> (r: Vec<HeadMove>)
    ensures
        steps_of(r@) == head_steps(system@, root@).reverse(),
{
    let mut moves = moves_oldest_first(system, root);
    let mut out: Vec<HeadMove> = Vec::new();
    let ghost all = steps_of(moves@);
    while moves.len() > 0
        invariant
            moves@.len() <= all.len(),
            steps_of(moves@) == all.take(moves@.len() as int),
            out@.len() == all.len() - moves@.len(),
            forall|k: int| 0 <= k < out@.len() ==> (#[trigger] out@[k])@ == all[all.len() - 1 - k],
        decreases moves@.len(),
    {
        let ghost was = moves@;
        let last = moves.pop();
        match last {
            Some(x) => {
                assert(steps_of(was)[was.len() - 1] == x@);
                assert(x@ == all[was.len() - 1]);
                out.push(x);
                assert(steps_of(moves@) =~= all.take(moves@.len() as int)) by {
                    assert forall|k: int| 0 <= k < moves@.len() implies steps_of(moves@)[k]
                        == all[k] by {
                        assert(steps_of(was)[k] == all[k]);
                    }
                }
            },
            None => {},
        }
    }
    assert(steps_of(out@) =~= all.reverse());
    out
}

/// `s` with tabs and line ends turned into spaces.
pub open spec fn one_line(s: Seq<char>) -> Seq<char> {
    s.map_values(
        |c: char|
            if c == '\t' || c == '\n' {
                ' '
            } else {
                c
            },
    )
}

fn on_one_line(s: &str) -> (r: String)
    ensures
        r@ == one_line(s@),
{
    let cs = chars_of(s);
    let mut out = String::new();
    let mut i: usize = 0;
    while i < cs.len()
        invariant
            i <= cs.len(),
            cs@ == s@,
            out@ == one_line(s@.take(i as int)),
        decreases cs.len() - i,
    {
        if cs[i] == '\t' || cs[i] == '\n' {
            out.push(' ');
        } else {
            out.push(cs[i]);
        }
        assert(out@ =~= one_line(s@.take(i + 1)));
        i += 1;
    }
    assert(s@.take(i as int) =~= s@);
    out
}

/// The line of one move.
pub open spec fn step_line(x: Step) -> Seq<char> {
    x.0 + "\t"@ + x.1 + "\t"@ + x.2 + "\n"@
}

/// The lines of moves.
pub open spec fn step_lines(v: Seq<Step>) -> Seq<char>
    decreases v.len(),
{
    if v.len() == 0 {
        seq![]
    } else {
        step_lines(v.drop_last()) + step_line(v.last())
    }
}

/// The moves that are kept: the last ones, up to the most.
pub open spec fn kept_steps(v: Seq<Step>) -> Seq<Step> {
    if v.len() > MAX_REFLOG_ENTRIES {
        v.subrange(v.len() - MAX_REFLOG_ENTRIES, v.len() as int)
    } else {
        v
    }
}

/// The id that stands for no commit.
pub open spec fn no_commit() -> Seq<char> {
    "0000000000000000000000000000000000000000"@
}

/// The machine once a move of HEAD is recorded; a write that fails is let go.
pub open spec fn move_logged(
    m: Machine,
    root: Seq<char>,
    before: Option<Seq<char>>,
    after: Seq<char>,
    action: Seq<char>,
) -> Machine {
    let from = match before {
        Some(b) => b,
        None => no_commit(),
    };
    let all = head_steps(m, root).push((from, after, one_line(action)));
    written(m, git_file(root, "logs/HEAD"@), encode_utf8(step_lines(kept_steps(all)))).0
}

/// Records a move of HEAD.
pub fn log_head_move(
    system: &mut System,
    root: &str,
    before: &Option<String>,
    after: &str,
    action: &str,
)
    ensures
        final(system)@ == move_logged(
            old(system)@,
            root@,
            opt_text(*before),
            after@,
            action@,
        ),
{
    let from = match before {
        Some(b) => copy_text(b.as_str()),
        None => copy_text("0000000000000000000000000000000000000000"),
    };
    let mut moves = moves_oldest_first(system, root);
    let ghost was = steps_of(moves@);
    let x = HeadMove { before: from, after: copy_text(after), action: on_one_line(action) };
    moves.push(x);
    let ghost all = steps_of(moves@);
    assert(all =~= was.push(x@));
    let first: usize = if moves.len() > MAX_REFLOG_ENTRIES {
        moves.len() - MAX_REFLOG_ENTRIES
    } else {
        0
    };
    let ghost kept = kept_steps(all);
    assert(kept =~= all.subrange(first as int, all.len() as int));
    let mut text = String::new();
    let mut i: usize = first;
    while i < moves.len()
        invariant
            first <= i <= moves.len(),
            all == steps_of(moves@),
            kept == all.subrange(first as int, all.len() as int),
            text@ == step_lines(kept.take(i - first)),
        decreases moves.len() - i,
    {
        assert(kept.take(i + 1 - first).drop_last() =~= kept.take(i - first));
        assert(kept.take(i + 1 - first).last() == moves@[i as int]@);
        let mut line = join4(
            moves[i].before.as_str(),
            "\t",
            moves[i].after.as_str(),
            "\t",
        );
        line.append(moves[i].action.as_str());
        line.append("\n");
        text.append(line.as_str());
        i += 1;
    }
    assert(kept.take(i - first) =~= kept);
    let _ = write_vfs(system, git_path(root, "logs/HEAD").as_str(), text.as_str().as_bytes());
}

/// Pointing HEAD at a commit, along the branch where it is on one.
pub open spec fn head_updated(m: Machine, root: Seq<char>, id: Seq<char>, action: Seq<char>) -> Written {
    let destination = match head_ref(m, root) {
        Some(name) => name,
        None => "HEAD"@,
    };
    match reference_written(m, root, destination, id) {
        (after, Ok(())) => (move_logged(after, root, head_id(m, root), id, action), Ok(())),
        (after, Err(e)) => (after, Err(e)),
    }
}

/// Points HEAD at a commit, along the branch where it is on one.
pub fn update_head(system: &mut System, root: &str, commit: &str, action: &str) -> (r: Result<
    (),
    FileError,
>)
    ensures
        (final(system)@, outcome(r)) == head_updated(old(system)@, root@, commit@, action@),
{
    let before = head_commit(system, root);
    let destination = match head_reference(system, root) {
        Some(name) => name,
        None => copy_text("HEAD"),
    };
    match write_reference(system, root, destination.as_str(), commit) {
        Ok(()) => {},
        Err(e) => return Err(e),
    }
    log_head_move(system, root, &before, commit, action);
    Ok(())
}

/// Remembering where HEAD stood.
pub open spec fn orig_head_recorded(m: Machine, root: Seq<char>) -> Machine {
    match head_id(m, root) {
        Some(id) => reference_written(m, root, "ORIG_HEAD"@, id).0,
        None => m,
    }
}

/// Remembers where HEAD stands.
pub fn record_orig_head(system: &mut System, root: &str)
    ensures
        final(system)@ == orig_head_recorded(old(system)@, root@),
{
    if let Some(commit) = head_commit(system, root) {
        let _ = write_reference(system, root, "ORIG_HEAD", commit.as_str());
    }
}

/// Putting HEAD on a branch.
pub open spec fn head_on_branch(m: Machine, root: Seq<char>, branch: Seq<char>, action: Seq<char>) -> Written {
    match written(
        m,
        git_file(root, "HEAD"@),
        encode_utf8("ref: refs/heads/"@ + branch + "\n"@),
    ) {
        (after, Ok(())) => match head_id(after, root) {
            Some(id) => (move_logged(after, root, head_id(m, root), id, action), Ok(())),
            None => (after, Ok(())),
        },
        (after, Err(e)) => (after, Err(e)),
    }
}

/// Puts HEAD on a branch.
pub fn set_head_to_branch(system: &mut System, root: &str, branch: &str, action: &str) -> (r: Result<
    (),
    FileError,
>)
    ensures
        (final(system)@, outcome(r)) == head_on_branch(old(system)@, root@, branch@, action@),
{
    let before = head_commit(system, root);
    match write_vfs(
        system,
        git_path(root, "HEAD").as_str(),
        join3("ref: refs/heads/", branch, "\n").as_str().as_bytes(),
    ) {
        Ok(()) => {},
        Err(e) => return Err(e),
    }
    if let Some(commit) = head_commit(system, root) {
        log_head_move(system, root, &before, commit.as_str(), action);
    }
    Ok(())
}

/// Putting HEAD on a commit of no branch.
pub open spec fn head_detached(m: Machine, root: Seq<char>, id: Seq<char>, action: Seq<char>) -> Written {
    match written(m, git_file(root, "HEAD"@), encode_utf8(id + "\n"@)) {
        (after, Ok(())) => (move_logged(after, root, head_id(m, root), id, action), Ok(())),
        (after, Err(e)) => (after, Err(e)),
    }
}

/// Puts HEAD on a commit of no branch.
pub fn set_head_detached(system: &mut System, root: &str, commit: &str, action: &str) -> (r: Result<
    (),
    FileError,
>)
    ensures
        (final(system)@, outcome(r)) == head_detached(old(system)@, root@, commit@, action@),
{
    let before = head_commit(system, root);
    match write_vfs(
        system,
        git_path(root, "HEAD").as_str(),
        join2(commit, "\n").as_str().as_bytes(),
    ) {
        Ok(()) => {},
        Err(e) => return Err(e),
    }
    log_head_move(system, root, &before, commit, action);
    Ok(())
}

// ---------------------------------------------------------------------------
// Names of references
// ---------------------------------------------------------------------------

/// The names below `prefix` of the files among `paths`.
pub open spec fn file_names(m: Machine, prefix: Seq<char>, paths: Seq<Seq<char>>) -> Seq<Seq<char>>
    decreases paths.len(),
{
    if paths.len() == 0 {
        seq![]
    } else {
        let head = file_names(m, prefix, paths.drop_last());
        match after_prefix(paths.last(), prefix + "/"@) {
            Some(name) => if file_at(m.files, paths.last()) {
                head.push(name)
            } else {
                head
            },
            None => head,
        }
    }
}

/// The paths at or below a path that something stands at.
pub open spec fn walked_paths(m: Machine, path: Seq<char>) -> Seq<Seq<char>> {
    if lookup(m.files, path) is Some {
        paths_inside(m.files, path)
    } else {
        seq![]
    }
}

/// The paths at or below a path that something stands at.
pub fn walk_paths(system: &System, path: &str) -> (r: Vec<String>)
    ensures
        texts(r@) == walked_paths(system@, path@),
{
    match system.walk(path) {
        Some(v) => v,
        None => {
            let v: Vec<String> = Vec::new();
            assert(texts(v@) =~= seq![]);
            v
        },
    }
}

/// The names of the references of a kind, in order.
pub open spec fn ref_names(m: Machine, root: Seq<char>, kind: Seq<char>) -> Seq<Seq<char>> {
    let prefix = git_file(root, "refs/"@ + kind);
    crate::order::sorted(file_names(m, prefix, walked_paths(m, prefix)))
}

/// The names of the references of a kind, in order.
pub fn reference_names(system: &System, root: &str, kind: &str) -> (r: Vec<String>)
    ensures
        texts(r@) == ref_names(system@, root@, kind@),
{
    let prefix = git_path(root, join2("refs/", kind).as_str());
    let inner = join2(prefix.as_str(), "/");
    let paths = walk_paths(system, prefix.as_str());
    let ghost all = texts(paths@);
    let mut names: Vec<String> = Vec::new();
    let mut i: usize = 0;
    assert(texts(names@) =~= seq![]);
    while i < paths.len()
        invariant
            i <= paths.len(),
            all == texts(paths@),
            inner@ == prefix@ + "/"@,
            texts(names@) == file_names(system@, prefix@, all.take(i as int)),
        decreases paths.len() - i,
    {
        broadcast use lemma_texts_push;

        assert(all.take(i + 1).drop_last() =~= all.take(i as int));
        assert(all.take(i + 1).last() == paths@[i as int]@);
        if let Some(name) = strip_prefix(paths[i].as_str(), inner.as_str()) {
            if system.is_file(paths[i].as_str()) {
                names.push(name);
            }
        }
        i += 1;
    }
    assert(all.take(i as int) =~= all);
    crate::order::sort_texts(names)
}

/// The names of the branches, in order.
pub open spec fn branches(m: Machine, root: Seq<char>) -> Seq<Seq<char>> {
    ref_names(m, root, "heads"@)
}

/// The names of the branches, in order.
pub fn branch_names(system: &System, root: &str) -> (r: Vec<String>)
    ensures
        texts(r@) == branches(system@, root@),
{
    reference_names(system, root, "heads")
}

/// The tree that HEAD stands on, empty where there is none.
pub open spec fn head_files(m: Machine, root: Seq<char>) -> Files {
    match head_id(m, root) {
        Some(id) => match tree_at(m, root, id) {
            Some(t) => t,
            None => seq![],
        },
        None => seq![],
    }
}

/// The tree that HEAD stands on, empty where there is none.
pub fn head_tree(system: &System, root: &str) -> (r: Tree)
    ensures
        r@ == head_files(system@, root@),
{
    match head_commit(system, root) {
        Some(id) => match commit_tree(system, root, id.as_str()) {
            Some(t) => t,
            None => OrdMap::new(),
        },
        None => OrdMap::new(),
    }
}

/// The branch that the last switch left.
pub open spec fn branch_before(m: Machine, root: Seq<char>) -> Option<Seq<char>> {
    reference_of(m, root, "PREV_HEAD"@)
}

/// The branch that the last switch left.
pub fn previous_branch(system: &System, root: &str) -> (r: Option<String>)
    ensures
        opt_text(r) == branch_before(system@, root@),
{
    read_reference(system, root, "PREV_HEAD")
}

} // verus!
