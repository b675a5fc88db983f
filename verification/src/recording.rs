//! What staging and committing leave behind: the index and the objects hold what was staged, HEAD
//! stands on the commit, and the commit holds the tree and the record it was given.

use vstd::prelude::*;
use vstd::utf8::encode_utf8;

use crate::committing::{
    commit_action, commit_base, commit_recorded, commit_stored_and_shown, head_record, new_note, CommitWish,
};
use crate::common::pathspecs_of;
use crate::configuration::Overrides;
use crate::console::Screen;
use crate::hashes::{hex_digit, lemma_digest_length, sha1_digest, sha1_text};
use crate::objects::blob_id;
use crate::order::{
    ascending, bind, lemma_bind_ascending, lemma_lookup_bind, lemma_lookup_unbind, lemma_other_key_stays,
    lemma_unbind_ascending, lookup, unbind,
};
use crate::records::{note_bytes, note_text, storable_note, Note};
use crate::repo::{
    blob_file, blob_stored, commit_id, commit_of, commit_stored, git_file, head_id, head_ref, head_steps,
    head_updated, index_of, kept_steps, move_logged, no_commit, one_line, readable, reference_written, step_lines, tree_at,
    written,
};
use crate::stages::{cleared, dropped};
use crate::staging::{path_staged, staged_from, Staging};
use crate::storage::{
    compact, lemma_commit_read_back, lemma_git_files_differ, lemma_head_updated, lemma_index_read_back, lemma_log_keeps,
    lemma_written,
};
use crate::system::{Machine, Thing};
use crate::text::starts;
use crate::trees::{storable, tree_bytes, Files};
use crate::worktree::work_content;

verus! {

/// Whether a plain file of the repository is the same on two machines.
pub open spec fn kept(a: Machine, b: Machine, root: Seq<char>, name: Seq<char>) -> bool {
    &&& lookup(a.files, git_file(root, name)) matches Some(Thing::File { .. })
    &&& lookup(b.files, git_file(root, name)) == lookup(a.files, git_file(root, name))
    &&& b.memory_limit == a.memory_limit
}

proof fn lemma_kept(a: Machine, b: Machine, root: Seq<char>, name: Seq<char>)
    requires
        kept(a, b, root, name),
    ensures
        readable(b, git_file(root, name)) == readable(a, git_file(root, name)),
{
}

pub(crate) proof fn lemma_dropped_keeps(m: Machine, root: Seq<char>, gone: Seq<char>, name: Seq<char>)
    requires
        lookup(m.files, git_file(root, name)) matches Some(Thing::File { .. }),
        gone != name,
    ensures
        kept(m, dropped(m, root, gone), root, name),
{
    lemma_git_files_differ(root, gone, name);
    lemma_other_key_stays(m.files, git_file(root, gone), git_file(root, name));
}

/// Whether a name is none of those that are forgotten once an operation is finished.
pub open spec fn lasting(name: Seq<char>) -> bool {
    &&& name != "MERGE_HEAD"@
    &&& name != "CHERRY_PICK_HEAD"@
    &&& name != "REVERT_HEAD"@
    &&& name != "MERGE_STAGES"@
    &&& name != "MERGE_MSG"@
}

pub(crate) proof fn lemma_cleared_keeps(m: Machine, root: Seq<char>, name: Seq<char>)
    requires
        lookup(m.files, git_file(root, name)) matches Some(Thing::File { .. }),
        lasting(name),
    ensures
        kept(m, cleared(m, root), root, name),
{
    let a = dropped(m, root, "MERGE_HEAD"@);
    let b = dropped(a, root, "CHERRY_PICK_HEAD"@);
    let c = dropped(b, root, "REVERT_HEAD"@);
    let d = dropped(c, root, "MERGE_STAGES"@);
    lemma_dropped_keeps(m, root, "MERGE_HEAD"@, name);
    lemma_dropped_keeps(a, root, "CHERRY_PICK_HEAD"@, name);
    lemma_dropped_keeps(b, root, "REVERT_HEAD"@, name);
    lemma_dropped_keeps(c, root, "MERGE_STAGES"@, name);
    lemma_dropped_keeps(d, root, "MERGE_MSG"@, name);
}

pub(crate) proof fn lemma_lasting_names(name: Seq<char>)
    ensures
        starts(name, "refs/"@) ==> lasting(name) && name != "logs/HEAD"@ && name != "HEAD"@,
        starts(name, "commits/"@) ==> lasting(name) && name != "logs/HEAD"@ && name != "HEAD"@
            && !starts(name, "refs/"@),
        lasting("HEAD"@),
{
    reveal_strlit("MERGE_HEAD");
    reveal_strlit("CHERRY_PICK_HEAD");
    reveal_strlit("REVERT_HEAD");
    reveal_strlit("MERGE_STAGES");
    reveal_strlit("MERGE_MSG");
    reveal_strlit("logs/HEAD");
    reveal_strlit("HEAD");
    reveal_strlit("refs/");
    reveal_strlit("commits/");
    if starts(name, "refs/"@) {
        assert("refs/"@[0] == 'r' && name.subrange(0, 5)[0] == name[0]);
    }
    if starts(name, "commits/"@) {
        assert("commits/"@[0] == 'c' && name.subrange(0, 8)[0] == name[0]);
    }
    assert("MERGE_HEAD"@[0] == 'M' && "CHERRY_PICK_HEAD"@[0] == 'C' && "REVERT_HEAD"@[0] == 'R');
    assert("MERGE_STAGES"@[0] == 'M' && "MERGE_MSG"@[0] == 'M' && "logs/HEAD"@[0] == 'l');
    assert("HEAD"@[0] == 'H');
}

proof fn lemma_name_of_digest(data: Seq<u8>)
    ensures
        sha1_text(data).len() == 40,
        compact(sha1_text(data)),
        !starts(sha1_text(data), "ref: "@),
{
    let s = sha1_text(data);
    reveal_strlit("ref: ");
    lemma_digest_length(data);
    assert(s[0] == hex_digit(sha1_digest(data)[0] as int / 16));
    assert(s[39] == hex_digit(sha1_digest(data)[19] as int % 16));
    if starts(s, "ref: "@) {
        assert(s.subrange(0, 5)[0] == s[0]);
        assert("ref: "@[0] == 'r');
    }
}

pub(crate) proof fn lemma_log_limit(
    m: Machine,
    root: Seq<char>,
    before: Option<Seq<char>>,
    after: Seq<char>,
    action: Seq<char>,
)
    ensures
        move_logged(m, root, before, after, action).memory_limit == m.memory_limit,
{
    let from = match before {
        Some(b) => b,
        None => no_commit(),
    };
    let all = head_steps(m, root).push((from, after, one_line(action)));
    let path = git_file(root, "logs/HEAD"@);
    lemma_written(m, path, encode_utf8(step_lines(kept_steps(all))), path);
}

pub(crate) proof fn lemma_head_update_keeps(m: Machine, root: Seq<char>, id: Seq<char>, action: Seq<char>, name: Seq<char>)
    requires
        head_updated(m, root, id, action).1 is Ok,
        lookup(m.files, git_file(root, name)) matches Some(Thing::File { .. }),
        name != "HEAD"@,
        name != "logs/HEAD"@,
        head_ref(m, root) != Some(name),
    ensures
        kept(m, head_updated(m, root, id, action).0, root, name),
{
    let destination = match head_ref(m, root) {
        Some(r) => r,
        None => "HEAD"@,
    };
    lemma_git_files_differ(root, destination, name);
    let m1 = reference_written(m, root, destination, id).0;
    lemma_written(m, git_file(root, destination), encode_utf8(id + "\n"@), git_file(root, name));
    lemma_log_keeps(m1, root, head_id(m, root), id, action, name);
    let from = match head_id(m, root) {
        Some(b) => b,
        None => no_commit(),
    };
    let all = head_steps(m1, root).push((from, id, one_line(action)));
    lemma_written(
        m1,
        git_file(root, "logs/HEAD"@),
        encode_utf8(step_lines(kept_steps(all))),
        git_file(root, name),
    );
}

/// Whether a commit can be stored and fits into so much memory.
pub open spec fn fits(n: Note, tree: Files, limit: int) -> bool {
    &&& storable_note(n)
    &&& storable(tree)
    &&& note_bytes(n).len() <= limit
    &&& tree_bytes(tree).len() <= limit
    &&& encode_utf8(commit_id(n, tree) + "\n"@).len() <= limit
}

/// Whether HEAD is a plain file, and names a reference where it names anything.
pub open spec fn plain_head(m: Machine, root: Seq<char>) -> bool {
    &&& lookup(m.files, git_file(root, "HEAD"@)) matches Some(Thing::File { .. })
    &&& head_ref(m, root) matches Some(name) ==> starts(name, "refs/"@)
}

/// Whether HEAD stands on a commit, on the same branch as before, and the commit holds a tree and a
/// record.
pub open spec fn stands_on(before: Machine, after: Machine, root: Seq<char>, n: Note, tree: Files) -> bool {
    &&& head_id(after, root) == Some(commit_id(n, tree))
    &&& head_ref(after, root) == head_ref(before, root)
    &&& commit_of(after, root, commit_id(n, tree)) == Some(n)
    &&& tree_at(after, root, commit_id(n, tree)) == Some(tree)
}

/// Once a commit was stored and HEAD was pointed at it, HEAD stands on it, and it holds the tree and
/// the record that it was given.
pub proof fn lemma_recorded(m: Machine, root: Seq<char>, n: Note, tree: Files, action: Seq<char>)
    requires
        commit_stored(m, root, n, tree).1 is Ok,
        head_updated(commit_stored(m, root, n, tree).0, root, commit_id(n, tree), action).1 is Ok,
        fits(n, tree, m.memory_limit as int),
        plain_head(m, root),
    ensures
        stands_on(
            m,
            head_updated(commit_stored(m, root, n, tree).0, root, commit_id(n, tree), action).0,
            root,
            n,
            tree,
        ),
{
    let id = commit_id(n, tree);
    let first = "commits/"@ + id + ".tree"@;
    let second = "commits/"@ + id + ".commit"@;
    let (m1, _) = commit_stored(m, root, n, tree);
    let (m2, _) = head_updated(m1, root, id, action);
    assert(first.subrange(0, "commits/"@.len() as int) =~= "commits/"@);
    assert(second.subrange(0, "commits/"@.len() as int) =~= "commits/"@);
    lemma_lasting_names(first);
    lemma_lasting_names(second);
    lemma_lasting_names("HEAD"@);
    lemma_name_of_digest(encode_utf8("tree "@ + sha1_text(tree_bytes(tree)) + "\n"@ + note_text(n)));
    // The commit and its tree.
    lemma_commit_read_back(m, root, n, tree);
    let half = written(m, git_file(root, first), tree_bytes(tree)).0;
    reveal_strlit(".commit");
    reveal_strlit(".tree");
    assert(first.len() != second.len());
    lemma_git_files_differ(root, first, second);
    lemma_git_files_differ(root, first, "HEAD"@);
    lemma_git_files_differ(root, second, "HEAD"@);
    lemma_written(m, git_file(root, first), tree_bytes(tree), git_file(root, first));
    lemma_written(m, git_file(root, first), tree_bytes(tree), git_file(root, "HEAD"@));
    lemma_written(half, git_file(root, second), note_bytes(n), git_file(root, first));
    lemma_written(half, git_file(root, second), note_bytes(n), git_file(root, "HEAD"@));
    assert(kept(m, m1, root, "HEAD"@));
    lemma_kept(m, m1, root, "HEAD"@);
    assert(head_ref(m1, root) == head_ref(m, root));
    // HEAD.
    if let Some(name) = head_ref(m1, root) {
        lemma_lasting_names(name);
    }
    lemma_head_updated(m1, root, id, action);
    lemma_head_update_keeps(m1, root, id, action, first);
    lemma_head_update_keeps(m1, root, id, action, second);
    lemma_kept(m1, m2, root, first);
    lemma_kept(m1, m2, root, second);
}

/// A commit that was recorded, and whose files fit into memory, is what HEAD stands on, on the same
/// branch as before; it holds the tree and the record that it was given. The one thing asked of the
/// repository is that HEAD is a plain file, and names a reference where it names anything.
pub proof fn lemma_commit_is_head(
    m: Machine,
    s: Screen,
    root: Seq<char>,
    x: CommitWish,
    n: Note,
    tree: Files,
    base: Files,
)
    requires
        commit_stored_and_shown(m, s, root, x, n, tree, base).status == 0,
        storable_note(n),
        storable(tree),
        note_bytes(n).len() <= m.memory_limit,
        tree_bytes(tree).len() <= m.memory_limit,
        encode_utf8(commit_id(n, tree) + "\n"@).len() <= m.memory_limit,
        lookup(m.files, git_file(root, "HEAD"@)) matches Some(Thing::File { .. }),
        head_ref(m, root) matches Some(name) ==> starts(name, "refs/"@),
    ensures
        ({
            let after = commit_stored_and_shown(m, s, root, x, n, tree, base).m;
            &&& head_id(after, root) == Some(commit_id(n, tree))
            &&& head_ref(after, root) == head_ref(m, root)
            &&& commit_of(after, root, commit_id(n, tree)) == Some(n)
            &&& tree_at(after, root, commit_id(n, tree)) == Some(tree)
        }),
{
    let id = commit_id(n, tree);
    let action = commit_action(n, x.amend);
    let first = "commits/"@ + id + ".tree"@;
    let second = "commits/"@ + id + ".commit"@;
    let (m1, _) = commit_stored(m, root, n, tree);
    let (m2, _) = head_updated(m1, root, id, action);
    let m3 = commit_stored_and_shown(m, s, root, x, n, tree, base).m;
    assert(first.subrange(0, "commits/"@.len() as int) =~= "commits/"@);
    assert(second.subrange(0, "commits/"@.len() as int) =~= "commits/"@);
    lemma_lasting_names(first);
    lemma_lasting_names(second);
    lemma_lasting_names("HEAD"@);
    lemma_name_of_digest(encode_utf8("tree "@ + sha1_text(tree_bytes(tree)) + "\n"@ + note_text(n)));
    // The commit and its tree.
    lemma_commit_read_back(m, root, n, tree);
    let half = written(m, git_file(root, first), tree_bytes(tree)).0;
    reveal_strlit(".commit");
    reveal_strlit(".tree");
    assert(first.len() != second.len());
    lemma_git_files_differ(root, first, second);
    lemma_git_files_differ(root, first, "HEAD"@);
    lemma_git_files_differ(root, second, "HEAD"@);
    lemma_written(m, git_file(root, first), tree_bytes(tree), git_file(root, first));
    lemma_written(m, git_file(root, first), tree_bytes(tree), git_file(root, "HEAD"@));
    lemma_written(half, git_file(root, second), note_bytes(n), git_file(root, first));
    lemma_written(half, git_file(root, second), note_bytes(n), git_file(root, "HEAD"@));
    assert(kept(m, m1, root, "HEAD"@));
    lemma_kept(m, m1, root, "HEAD"@);
    assert(head_ref(m1, root) == head_ref(m, root));
    // HEAD.
    if let Some(name) = head_ref(m1, root) {
        lemma_lasting_names(name);
    }
    lemma_head_updated(m1, root, id, action);
    lemma_head_update_keeps(m1, root, id, action, first);
    lemma_head_update_keeps(m1, root, id, action, second);
    lemma_kept(m1, m2, root, first);
    lemma_kept(m1, m2, root, second);
    // What is forgotten.
    if m3 != m2 {
        lemma_cleared_keeps(m2, root, first);
        lemma_cleared_keeps(m2, root, second);
        lemma_kept(m2, m3, root, first);
        lemma_kept(m2, m3, root, second);
        lemma_head_stays_plain(m1, root, id, action);
        lemma_cleared_keeps(m2, root, "HEAD"@);
        lemma_kept(m2, m3, root, "HEAD"@);
        if let Some(name) = head_ref(m2, root) {
            lemma_cleared_keeps(m2, root, name);
            lemma_kept(m2, m3, root, name);
        }
    }
}

proof fn lemma_head_stays_plain(m: Machine, root: Seq<char>, id: Seq<char>, action: Seq<char>)
    requires
        head_updated(m, root, id, action).1 is Ok,
        lookup(m.files, git_file(root, "HEAD"@)) matches Some(Thing::File { .. }),
        head_ref(m, root) matches Some(name) ==> name != "logs/HEAD"@ && name != "HEAD"@,
    ensures
        lookup(head_updated(m, root, id, action).0.files, git_file(root, "HEAD"@)) matches Some(
            Thing::File { .. },
        ),
        head_ref(m, root) matches Some(name) ==> (lookup(
            head_updated(m, root, id, action).0.files,
            git_file(root, name),
        ) matches Some(Thing::File { .. })),
{
    reveal_strlit("HEAD");
    reveal_strlit("logs/HEAD");
    assert("HEAD"@.len() != "logs/HEAD"@.len());
    let destination = match head_ref(m, root) {
        Some(r) => r,
        None => "HEAD"@,
    };
    let m1 = reference_written(m, root, destination, id).0;
    lemma_written(m, git_file(root, destination), encode_utf8(id + "\n"@), git_file(root, destination));
    lemma_log_keeps(m1, root, head_id(m, root), id, action, destination);
    if destination != "HEAD"@ {
        lemma_git_files_differ(root, destination, "HEAD"@);
        lemma_written(m, git_file(root, destination), encode_utf8(id + "\n"@), git_file(root, "HEAD"@));
        lemma_log_keeps(m1, root, head_id(m, root), id, action, "HEAD"@);
    }
}

#[verifier::spinoff_prover]
#[verifier::rlimit(60)]
proof fn lemma_recorded_index(
    m: Machine,
    s: Screen,
    root: Seq<char>,
    g: Overrides,
    x: CommitWish,
    message: Seq<char>,
    index: Files,
)
    requires
        commit_recorded(m, s, root, g, x, seq![], message, head_record(m, root)).status == 0,
        index_of(m, root) == Some(index),
    ensures
        ({
            let (u, b) = commit_base(m, s, root, x.amend, head_record(m, root));
            let n = recorded_note(m, s, root, g, x, message);
            &&& b is Ok
            &&& commit_recorded(m, s, root, g, x, seq![], message, head_record(m, root))
                == commit_stored_and_shown(m, u, root, x, n, index, (b->Ok_0).1)
        }),
{
    assert(pathspecs_of(m.cwd, root, seq![]) =~= seq![]);
}

proof fn lemma_first_parent(m: Machine, s: Screen, root: Seq<char>, g: Overrides, x: CommitWish, message: Seq<char>)
    requires
        commit_base(m, s, root, x.amend, head_record(m, root)).1 is Ok,
        !x.amend,
    ensures
        head_record(m, root) matches Some(before) ==> recorded_note(
            m,
            s,
            root,
            g,
            x,
            message,
        ).parents.len() > 0 && recorded_note(m, s, root, g, x, message).parents[0] == before.0,
{
}

/// What is committed is what was staged: once a commit of the whole index has succeeded, HEAD
/// stands on a commit that holds exactly the index, on the same branch as before. Its record says
/// who, when and why, and its first parent is the commit that HEAD stood on, unless that one was
/// amended.
#[verifier::spinoff_prover]
#[verifier::rlimit(80)]
pub proof fn lemma_commit_holds_index(
    m: Machine,
    s: Screen,
    root: Seq<char>,
    g: Overrides,
    x: CommitWish,
    message: Seq<char>,
    index: Files,
)
    requires
        commit_recorded(m, s, root, g, x, seq![], message, head_record(m, root)).status == 0,
        index_of(m, root) == Some(index),
        storable(index),
        tree_bytes(index).len() <= m.memory_limit,
        ({
            let n = recorded_note(m, s, root, g, x, message);
            &&& storable_note(n)
            &&& note_bytes(n).len() <= m.memory_limit
            &&& encode_utf8(commit_id(n, index) + "\n"@).len() <= m.memory_limit
        }),
        lookup(m.files, git_file(root, "HEAD"@)) matches Some(Thing::File { .. }),
        head_ref(m, root) matches Some(name) ==> starts(name, "refs/"@),
    ensures
        ({
            let after = commit_recorded(m, s, root, g, x, seq![], message, head_record(m, root)).m;
            let n = recorded_note(m, s, root, g, x, message);
            let id = commit_id(n, index);
            &&& head_id(after, root) == Some(id)
            &&& head_ref(after, root) == head_ref(m, root)
            &&& commit_of(after, root, id) == Some(n)
            &&& tree_at(after, root, id) == Some(index)
            &&& (head_record(m, root) matches Some(before) ==> !x.amend ==> n.parents.len() > 0
                && n.parents[0] == before.0)
        }),
{
    let previous = head_record(m, root);
    lemma_recorded_index(m, s, root, g, x, message, index);
    let (u, b) = commit_base(m, s, root, x.amend, previous);
    let n = recorded_note(m, s, root, g, x, message);
    lemma_commit_is_head(m, u, root, x, n, index, (b->Ok_0).1);
    if !x.amend {
        lemma_first_parent(m, s, root, g, x, message);
    }
}

/// The record of the commit that the index and HEAD lead to.
pub open spec fn recorded_note(
    m: Machine,
    s: Screen,
    root: Seq<char>,
    g: Overrides,
    x: CommitWish,
    message: Seq<char>,
) -> Note {
    let previous = head_record(m, root);
    let parents = match commit_base(m, s, root, x.amend, previous).1 {
        Ok((parents, base)) => parents,
        Err(e) => seq![],
    };
    new_note(m, root, g, x, message, parents, previous)
}

// ---------------------------------------------------------------------------
// Staging
// ---------------------------------------------------------------------------

/// Whether the object with a name is there, and is what its name says.
pub open spec fn stored(m: Machine, root: Seq<char>, hash: Seq<char>) -> bool {
    lookup(m.files, blob_file(root, hash)) matches Some(Thing::File { bytes, .. }) && blob_id(bytes)
        == hash
}

/// The index once the paths from `i` on are staged: each holds what the working tree holds for it.
pub open spec fn staged_index(index: Files, work: Files, paths: Seq<Seq<char>>, i: int) -> Files
    decreases paths.len() - i,
{
    if i < 0 || i >= paths.len() {
        index
    } else {
        match lookup(work, paths[i]) {
            Some(r) => staged_index(bind(index, paths[i], r), work, paths, i + 1),
            None => staged_index(unbind(index, paths[i]), work, paths, i + 1),
        }
    }
}

proof fn lemma_object_names(root: Seq<char>, a: Seq<char>, b: Seq<char>)
    requires
        a != b,
    ensures
        blob_file(root, a) != blob_file(root, b),
        blob_file(root, a) != git_file(root, "index"@),
{
    reveal_strlit("objects/");
    reveal_strlit("index");
    let x = "objects/"@ + a;
    let y = "objects/"@ + b;
    if x == y {
        assert(x.subrange(8, x.len() as int) =~= a);
        assert(y.subrange(8, y.len() as int) =~= b);
    }
    assert(x[0] == 'o' && "index"@[0] == 'i');
    lemma_git_files_differ(root, x, y);
    lemma_git_files_differ(root, x, "index"@);
}

proof fn lemma_blob_stays(m: Machine, root: Seq<char>, data: Seq<u8>, hash: Seq<char>)
    requires
        blob_stored(m, root, data).1 is Ok,
    ensures
        stored(blob_stored(m, root, data).0, root, blob_id(data)),
        stored(m, root, hash) ==> stored(blob_stored(m, root, data).0, root, hash),
        blob_stored(m, root, data).0.memory_limit == m.memory_limit,
{
    let at = blob_file(root, blob_id(data));
    lemma_written(m, at, data, at);
    if hash != blob_id(data) {
        lemma_object_names(root, hash, blob_id(data));
        lemma_written(m, at, data, blob_file(root, hash));
    }
}

/// What is staged is what the working tree holds: once staging has succeeded, the index holds for
/// each path what the working tree holds, and the object of each of them is there. Objects that were
/// there before still are.
pub proof fn lemma_staged(
    m: Machine,
    s: Screen,
    root: Seq<char>,
    index: Files,
    work: Files,
    paths: Seq<Seq<char>>,
    i: int,
    staging: Staging,
    hash: Seq<char>,
)
    requires
        0 <= i <= paths.len(),
        staging != Staging::DryRun,
        staged_from(m, s, root, index, work, paths, i, staging).status == 0,
        storable(staged_index(index, work, paths, i)),
        tree_bytes(staged_index(index, work, paths, i)).len() <= m.memory_limit,
    ensures
        index_of(staged_from(m, s, root, index, work, paths, i, staging).m, root) == Some(
            staged_index(index, work, paths, i),
        ),
        forall|k: int|
            i <= k < paths.len() ==> (lookup(work, #[trigger] paths[k]) matches Some(r) ==> stored(
                staged_from(m, s, root, index, work, paths, i, staging).m,
                root,
                r.hash,
            )),
        stored(m, root, hash) ==> stored(
            staged_from(m, s, root, index, work, paths, i, staging).m,
            root,
            hash,
        ),
    decreases paths.len() - i,
{
    let d = staged_from(m, s, root, index, work, paths, i, staging);
    if i >= paths.len() {
        lemma_index_read_back(m, root, index);
        lemma_object_names(root, hash, hash.push('x'));
        lemma_written(m, git_file(root, "index"@), tree_bytes(index), blob_file(root, hash));
    } else {
        let (n, t, more) = path_staged(m, s, root, index, work, paths[i], staging)->Ok_0;
        match lookup(work, paths[i]) {
            Some(r) => {
                let data = work_content(m, root, paths[i])->0;
                lemma_blob_stays(m, root, data, hash);
                lemma_staged(n, t, root, more, work, paths, i + 1, staging, r.hash);
                lemma_staged(n, t, root, more, work, paths, i + 1, staging, hash);
            },
            None => {
                lemma_staged(n, t, root, more, work, paths, i + 1, staging, hash);
            },
        }
    }
}

/// A path that is staged is in the index as it is in the working tree, and any other as it was.
pub proof fn lemma_staged_index(index: Files, work: Files, paths: Seq<Seq<char>>, i: int, path: Seq<char>)
    requires
        0 <= i <= paths.len(),
        ascending(index),
    ensures
        ascending(staged_index(index, work, paths, i)),
        (exists|k: int| i <= k < paths.len() && #[trigger] paths[k] == path) ==> lookup(
            staged_index(index, work, paths, i),
            path,
        ) == lookup(work, path),
        !(exists|k: int| i <= k < paths.len() && #[trigger] paths[k] == path) ==> lookup(
            staged_index(index, work, paths, i),
            path,
        ) == lookup(index, path),
    decreases paths.len() - i,
{
    if i < paths.len() {
        let more = match lookup(work, paths[i]) {
            Some(r) => bind(index, paths[i], r),
            None => unbind(index, paths[i]),
        };
        match lookup(work, paths[i]) {
            Some(r) => {
                lemma_bind_ascending(index, paths[i], r);
                lemma_lookup_bind(index, paths[i], r, path);
            },
            None => {
                lemma_unbind_ascending(index, paths[i]);
                lemma_lookup_unbind(index, paths[i], path);
            },
        }
        lemma_staged_index(more, work, paths, i + 1, path);
        if exists|k: int| i <= k < paths.len() && #[trigger] paths[k] == path {
            let k = choose|k: int| i <= k < paths.len() && #[trigger] paths[k] == path;
            if k > i {
                assert(paths[k] == path);
            } else if !(exists|j: int| i + 1 <= j < paths.len() && #[trigger] paths[j] == path) {
                assert(lookup(more, path) == lookup(work, path));
            }
        } else {
            assert(paths[i] != path);
        }
    }
}

} // verus!
