//! What is stored is read back: the laws of files, objects, the index, references and HEAD.

use vstd::prelude::*;
use vstd::utf8::encode_utf8;

use crate::bytes::lemma_text_round_trip;
use crate::objects::blob_id;
use crate::order::{lemma_lookup_bind, lookup};
use crate::records::{lemma_note_round_trip, note_bytes, storable_note, Note};
use crate::repo::{
    annotation_file, annotation_of, blob_file, blob_of, blob_stored, branch_of, commit_file_at, commit_id,
    commit_of, commit_stored, git_file, head_detached, head_id, head_on_branch, head_ref, head_text, head_updated,
    index_of, index_stored, move_logged, readable, reference_of, reference_written, tree_at, tree_file_at, written,
};
use crate::system::{below, bytes_at, parent, with_parents, Disk, Machine, Thing};
use crate::text::{is_space, starts, trimmed, trimmed_end, trimmed_start};
use crate::trees::{lemma_tree_round_trip, storable, tree_bytes, Files};

verus! {

// ---------------------------------------------------------------------------
// Files
// ---------------------------------------------------------------------------

/// Making the directories above a path leaves what stands anywhere as it was.
pub proof fn lemma_parents_kept(d: Disk, path: Seq<char>, other: Seq<char>)
    requires
        with_parents(d, path) is Ok,
        lookup(d, other) is Some,
    ensures
        lookup(with_parents(d, path)->Ok_0, other) == lookup(d, other),
    decreases path.len(),
{
    if let Some(p) = parent(path) {
        crate::system::lemma_parent_shorter(path);
        if lookup(d, p) is None {
            lemma_parents_kept(d, p, other);
            lemma_lookup_bind(with_parents(d, p)->Ok_0, p, Thing::Directory, other);
        }
    }
}

/// A file that was written is read back as it was written, and every other node stays as it was. A
/// write that is refused changes nothing.
pub proof fn lemma_written(m: Machine, path: Seq<char>, bytes: Seq<u8>, other: Seq<char>)
    ensures
        written(m, path, bytes).1 is Ok ==> bytes_at(written(m, path, bytes).0.files, path) == Some(
            bytes,
        ) && lookup(written(m, path, bytes).0.files, path) == Some(
            (Thing::File { bytes, mode: 0o644, native: false }),
        ),
        written(m, path, bytes).1 is Err ==> written(m, path, bytes).0 == m,
        lookup(m.files, other) is Some && other != path ==> lookup(
            written(m, path, bytes).0.files,
            other,
        ) == lookup(m.files, other),
        written(m, path, bytes).0.memory_limit == m.memory_limit,
{
    let t = Thing::File { bytes, mode: 0o644, native: false };
    if written(m, path, bytes).1 is Ok {
        let e = with_parents(m.files, path)->Ok_0;
        lemma_lookup_bind(e, path, t, path);
        lemma_lookup_bind(e, path, t, other);
        if lookup(m.files, other) is Some {
            lemma_parents_kept(m.files, path, other);
        }
    }
}

/// A file that is no link and stays in place keeps its content.
proof fn lemma_plain_file(d: Disk, e: Disk, path: Seq<char>)
    requires
        lookup(d, path) matches Some(Thing::File { .. }),
        lookup(e, path) == lookup(d, path),
    ensures
        bytes_at(e, path) == bytes_at(d, path),
{
}

pub(crate) proof fn lemma_git_files_differ(root: Seq<char>, a: Seq<char>, b: Seq<char>)
    requires
        a != b,
    ensures
        git_file(root, a) != git_file(root, b),
{
    let x = ".git/"@ + a;
    let y = ".git/"@ + b;
    if x == y {
        assert(x.subrange(".git/"@.len() as int, x.len() as int) =~= a);
        assert(y.subrange(".git/"@.len() as int, y.len() as int) =~= b);
    }
    let front = if root == "/"@ {
        "/"@
    } else {
        root + "/"@
    };
    let p = below(root, x);
    let q = below(root, y);
    assert(p =~= front + x);
    assert(q =~= front + y);
    if p == q {
        assert(p.subrange(front.len() as int, p.len() as int) =~= x);
        assert(q.subrange(front.len() as int, q.len() as int) =~= y);
    }
}

// ---------------------------------------------------------------------------
// Objects, the index and commits
// ---------------------------------------------------------------------------

/// A blob that was stored and fits into memory is read back under its name.
pub proof fn lemma_blob_read_back(m: Machine, root: Seq<char>, data: Seq<u8>)
    requires
        blob_stored(m, root, data).1 is Ok,
        data.len() <= m.memory_limit,
    ensures
        blob_of(blob_stored(m, root, data).0, root, blob_id(data)) == Some(data),
{
    lemma_written(m, blob_file(root, blob_id(data)), data, blob_file(root, blob_id(data)));
}

/// An index that was stored and fits into memory is read back.
pub proof fn lemma_index_read_back(m: Machine, root: Seq<char>, t: Files)
    requires
        index_stored(m, root, t).1 is Ok,
        storable(t),
        tree_bytes(t).len() <= m.memory_limit,
    ensures
        index_of(index_stored(m, root, t).0, root) == Some(t),
{
    lemma_written(m, git_file(root, "index"@), tree_bytes(t), git_file(root, "index"@));
    lemma_tree_round_trip(t);
}

/// A commit that was stored and fits into memory is read back under its name, with its tree.
pub proof fn lemma_commit_read_back(m: Machine, root: Seq<char>, n: Note, t: Files)
    requires
        commit_stored(m, root, n, t).1 is Ok,
        storable_note(n),
        storable(t),
        note_bytes(n).len() <= m.memory_limit,
        tree_bytes(t).len() <= m.memory_limit,
    ensures
        commit_of(commit_stored(m, root, n, t).0, root, commit_id(n, t)) == Some(n),
        tree_at(commit_stored(m, root, n, t).0, root, commit_id(n, t)) == Some(t),
{
    let id = commit_id(n, t);
    let first = tree_file_at(root, id);
    let second = commit_file_at(root, id);
    let m1 = written(m, first, tree_bytes(t)).0;
    lemma_written(m, first, tree_bytes(t), first);
    reveal_strlit(".commit");
    reveal_strlit(".tree");
    assert(("commits/"@ + id + ".tree"@).len() != ("commits/"@ + id + ".commit"@).len());
    lemma_git_files_differ(root, "commits/"@ + id + ".tree"@, "commits/"@ + id + ".commit"@);
    lemma_written(m1, second, note_bytes(n), first);
    let m2 = written(m1, second, note_bytes(n)).0;
    lemma_plain_file(m1.files, m2.files, first);
    lemma_note_round_trip(n);
    lemma_tree_round_trip(t);
}

/// The note of a tag that was stored and fits into memory is read back.
pub proof fn lemma_annotation_read_back(m: Machine, root: Seq<char>, name: Seq<char>, n: Note)
    requires
        written(m, annotation_file(root, name), note_bytes(n)).1 is Ok,
        storable_note(n),
        note_bytes(n).len() <= m.memory_limit,
    ensures
        annotation_of(
            written(m, annotation_file(root, name), note_bytes(n)).0,
            root,
            name,
        ) == Some(n),
{
    lemma_written(m, annotation_file(root, name), note_bytes(n), annotation_file(root, name));
    lemma_note_round_trip(n);
}

// ---------------------------------------------------------------------------
// References and HEAD
// ---------------------------------------------------------------------------

/// Whether a text can be kept in a reference: it is something, without outer white space.
pub open spec fn compact(s: Seq<char>) -> bool {
    s.len() > 0 && !is_space(s[0]) && !is_space(s.last())
}

proof fn lemma_trimmed_line(s: Seq<char>)
    requires
        compact(s),
    ensures
        trimmed(s + "\n"@) == s,
{
    reveal_strlit("\n");
    let t = s + "\n"@;
    assert(t[0] == s[0]);
    assert(trimmed_start(t) == t);
    assert(t.last() == '\n' && t.drop_last() =~= s);
    assert(trimmed_end(t) == trimmed_end(s));
    assert(trimmed_end(s) == s);
}

/// A reference that was written is read back.
pub proof fn lemma_reference_read_back(m: Machine, root: Seq<char>, name: Seq<char>, id: Seq<char>)
    requires
        reference_written(m, root, name, id).1 is Ok,
        compact(id),
        encode_utf8(id + "\n"@).len() <= m.memory_limit,
    ensures
        reference_of(reference_written(m, root, name, id).0, root, name) == Some(id),
{
    lemma_written(m, git_file(root, name), encode_utf8(id + "\n"@), git_file(root, name));
    lemma_text_round_trip(id + "\n"@);
    lemma_trimmed_line(id);
}

pub(crate) proof fn lemma_log_keeps(
    m: Machine,
    root: Seq<char>,
    before: Option<Seq<char>>,
    after: Seq<char>,
    action: Seq<char>,
    name: Seq<char>,
)
    requires
        name != "logs/HEAD"@,
        lookup(m.files, git_file(root, name)) matches Some(Thing::File { .. }),
    ensures
        lookup(move_logged(m, root, before, after, action).files, git_file(root, name)) == lookup(
            m.files,
            git_file(root, name),
        ),
        readable(move_logged(m, root, before, after, action), git_file(root, name)) == readable(
            m,
            git_file(root, name),
        ),
{
    lemma_git_files_differ(root, name, "logs/HEAD"@);
    let from = match before {
        Some(b) => b,
        None => crate::repo::no_commit(),
    };
    let all = crate::repo::head_steps(m, root).push(
        (from, after, crate::repo::one_line(action)),
    );
    lemma_written(
        m,
        git_file(root, "logs/HEAD"@),
        encode_utf8(crate::repo::step_lines(crate::repo::kept_steps(all))),
        git_file(root, name),
    );
    lemma_plain_file(
        m.files,
        move_logged(m, root, before, after, action).files,
        git_file(root, name),
    );
}

/// Once HEAD was pointed at a commit, it stands on that commit, on the same branch as before.
pub proof fn lemma_head_updated(m: Machine, root: Seq<char>, id: Seq<char>, action: Seq<char>)
    requires
        head_updated(m, root, id, action).1 is Ok,
        lookup(m.files, git_file(root, "HEAD"@)) matches Some(Thing::File { .. }),
        compact(id),
        !starts(id, "ref: "@),
        encode_utf8(id + "\n"@).len() <= m.memory_limit,
        head_ref(m, root) matches Some(name) ==> name != "logs/HEAD"@ && name != "HEAD"@,
    ensures
        head_id(head_updated(m, root, id, action).0, root) == Some(id),
        head_ref(head_updated(m, root, id, action).0, root) == head_ref(m, root),
{
    reveal_strlit("HEAD");
    reveal_strlit("logs/HEAD");
    assert("HEAD"@.len() != "logs/HEAD"@.len());
    let destination = match head_ref(m, root) {
        Some(name) => name,
        None => "HEAD"@,
    };
    let m1 = reference_written(m, root, destination, id).0;
    let m2 = move_logged(m1, root, head_id(m, root), id, action);
    lemma_written(
        m,
        git_file(root, destination),
        encode_utf8(id + "\n"@),
        git_file(root, "HEAD"@),
    );
    lemma_text_round_trip(id + "\n"@);
    lemma_trimmed_line(id);
    lemma_log_keeps(m1, root, head_id(m, root), id, action, destination);
    match head_ref(m, root) {
        Some(name) => {
            lemma_git_files_differ(root, name, "HEAD"@);
            lemma_plain_file(m.files, m1.files, git_file(root, "HEAD"@));
            lemma_log_keeps(m1, root, head_id(m, root), id, action, "HEAD"@);
            assert(head_text(m2, root) == head_text(m, root));
            assert(reference_of(m2, root, name) == Some(id));
        },
        None => {
            assert(head_text(m2, root) == Some(id));
        },
    }
}

/// Once HEAD was put on a branch, it is on that branch.
pub proof fn lemma_head_on_branch(m: Machine, root: Seq<char>, branch: Seq<char>, action: Seq<char>)
    requires
        head_on_branch(m, root, branch, action).1 is Ok,
        compact(branch),
        encode_utf8("ref: refs/heads/"@ + branch + "\n"@).len() <= m.memory_limit,
    ensures
        branch_of(head_on_branch(m, root, branch, action).0, root) == Some(branch),
{
    reveal_strlit("HEAD");
    reveal_strlit("logs/HEAD");
    assert("HEAD"@.len() != "logs/HEAD"@.len());
    reveal_strlit("ref: refs/heads/");
    reveal_strlit("ref: ");
    reveal_strlit("refs/heads/");
    let line = "ref: refs/heads/"@ + branch;
    let text = line + "\n"@;
    let m1 = written(m, git_file(root, "HEAD"@), encode_utf8(text)).0;
    lemma_written(m, git_file(root, "HEAD"@), encode_utf8(text), git_file(root, "HEAD"@));
    lemma_text_round_trip(text);
    assert(line[0] == 'r');
    assert(line.last() == branch.last());
    lemma_trimmed_line(line);
    assert(head_text(m1, root) == Some(line));
    assert(line.subrange(0, 5) =~= "ref: "@);
    let name = "refs/heads/"@ + branch;
    assert(line.subrange(5, line.len() as int) =~= name);
    assert(name.subrange(0, 11) =~= "refs/heads/"@);
    assert(name.subrange(11, name.len() as int) =~= branch);
    assert(branch_of(m1, root) == Some(branch));
    if let Some(id) = head_id(m1, root) {
        lemma_log_keeps(m1, root, head_id(m, root), id, action, "HEAD"@);
        let m2 = move_logged(m1, root, head_id(m, root), id, action);
        assert(head_text(m2, root) == head_text(m1, root));
    }
}

/// Once HEAD was put on a commit itself, it is on no branch and stands on that commit.
pub proof fn lemma_head_detached(m: Machine, root: Seq<char>, id: Seq<char>, action: Seq<char>)
    requires
        head_detached(m, root, id, action).1 is Ok,
        compact(id),
        !starts(id, "ref: "@),
        encode_utf8(id + "\n"@).len() <= m.memory_limit,
    ensures
        branch_of(head_detached(m, root, id, action).0, root) is None,
        head_id(head_detached(m, root, id, action).0, root) == Some(id),
{
    reveal_strlit("HEAD");
    reveal_strlit("logs/HEAD");
    assert("HEAD"@.len() != "logs/HEAD"@.len());
    let m1 = written(m, git_file(root, "HEAD"@), encode_utf8(id + "\n"@)).0;
    lemma_written(m, git_file(root, "HEAD"@), encode_utf8(id + "\n"@), git_file(root, "HEAD"@));
    lemma_text_round_trip(id + "\n"@);
    lemma_trimmed_line(id);
    lemma_log_keeps(m1, root, head_id(m, root), id, action, "HEAD"@);
    let m2 = head_detached(m, root, id, action).0;
    assert(head_text(m2, root) == Some(id));
}

} // verus!
