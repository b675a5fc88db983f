//! What resets, removals and moves come to.

use vstd::prelude::*;
use vstd::utf8::encode_utf8;

use crate::console::Screen;
use crate::moving::{all_removed, moved_entry, one_removed, rm_ended, step_made, RmAsk, Step};
use crate::names::overlaid;
use crate::objects::blob_id;
use crate::order::{
    ascending, lemma_lookup_bind, lemma_lookup_unbind, lemma_other_key_stays, lemma_unbind_ascending, lookup, unbind,
};
use crate::placing::{
    apart, lemma_entry_in_place, lemma_one_change, lemma_places_differ, lemma_pruned, no_file, placed_thing,
};
use crate::recording::{
    kept, lasting, lemma_cleared_keeps, lemma_head_update_keeps, lemma_lasting_names, plain_head,
};
use crate::repo::{
    blob_of, git_file, head_files, head_id, head_ref, head_steps, head_updated, index_of, index_stored, kept_steps,
    no_commit, one_line, orig_head_recorded, readable, reference_written, step_lines, written,
};
use crate::restoring::{hard_moved, reset_ended, reset_whole, unstaged_listed, ResetMode};
use crate::stages::{cleared, conflicts_of, dropped, resolved_paths, stages_text};
use crate::storage::{
    compact, lemma_git_files_differ, lemma_head_updated, lemma_index_read_back, lemma_written,
};
use crate::stowing::{lemma_move_spares, lemma_write};
use crate::system::{
    below, file_at, lemma_parent_shorter, parent, released, reserved, settled, with_files, without_dir, without_file,
    Act, Machine, Thing,
};
use crate::text::starts;
use crate::trees::{storable, tree_bytes, Files};
use crate::worktree::{lemma_walk_gives_back, move_memory, pruned, tree_moved, tree_written, work_content};

verus! {

/// Whether a place is none of the repository's own files.
pub open spec fn outside(root: Seq<char>, at: Seq<char>) -> bool {
    forall|name: Seq<char>| at != #[trigger] git_file(root, name)
}

proof fn lemma_outside(root: Seq<char>, path: Seq<char>)
    requires
        !starts(path, ".git/"@),
    ensures
        outside(root, below(root, path)),
{
    assert forall|name: Seq<char>| below(root, path) != #[trigger] git_file(root, name) by {
        let inner = ".git/"@ + name;
        assert(inner.subrange(0, ".git/"@.len() as int) =~= ".git/"@);
        lemma_places_differ(root, inner, path);
    }
}

proof fn lemma_dropped_outside(m: Machine, root: Seq<char>, name: Seq<char>, at: Seq<char>)
    requires
        outside(root, at),
    ensures
        lookup(dropped(m, root, name).files, at) == lookup(m.files, at),
        dropped(m, root, name).memory_limit == m.memory_limit,
{
    lemma_other_key_stays(m.files, git_file(root, name), at);
}

proof fn lemma_cleared_outside(m: Machine, root: Seq<char>, at: Seq<char>)
    requires
        outside(root, at),
    ensures
        lookup(cleared(m, root).files, at) == lookup(m.files, at),
        cleared(m, root).memory_limit == m.memory_limit,
{
    let a = dropped(m, root, "MERGE_HEAD"@);
    let b = dropped(a, root, "CHERRY_PICK_HEAD"@);
    let c = dropped(b, root, "REVERT_HEAD"@);
    let d = dropped(c, root, "MERGE_STAGES"@);
    lemma_dropped_outside(m, root, "MERGE_HEAD"@, at);
    lemma_dropped_outside(a, root, "CHERRY_PICK_HEAD"@, at);
    lemma_dropped_outside(b, root, "REVERT_HEAD"@, at);
    lemma_dropped_outside(c, root, "MERGE_STAGES"@, at);
    lemma_dropped_outside(d, root, "MERGE_MSG"@, at);
}

proof fn lemma_cleared_ascends(m: Machine, root: Seq<char>)
    requires
        ascending(m.files),
    ensures
        ascending(cleared(m, root).files),
{
    let a = dropped(m, root, "MERGE_HEAD"@);
    let b = dropped(a, root, "CHERRY_PICK_HEAD"@);
    let c = dropped(b, root, "REVERT_HEAD"@);
    let d = dropped(c, root, "MERGE_STAGES"@);
    lemma_unbind_ascending(m.files, git_file(root, "MERGE_HEAD"@));
    lemma_unbind_ascending(a.files, git_file(root, "CHERRY_PICK_HEAD"@));
    lemma_unbind_ascending(b.files, git_file(root, "REVERT_HEAD"@));
    lemma_unbind_ascending(c.files, git_file(root, "MERGE_STAGES"@));
    lemma_unbind_ascending(d.files, git_file(root, "MERGE_MSG"@));
}

proof fn lemma_head_outside(m: Machine, root: Seq<char>, id: Seq<char>, action: Seq<char>, at: Seq<char>)
    requires
        outside(root, at),
        lookup(m.files, at) is Some,
    ensures
        lookup(head_updated(m, root, id, action).0.files, at) == lookup(m.files, at),
{
    let destination = match head_ref(m, root) {
        Some(name) => name,
        None => "HEAD"@,
    };
    assert(at != git_file(root, destination));
    assert(at != git_file(root, "logs/HEAD"@));
    lemma_written(m, git_file(root, destination), encode_utf8(id + "\n"@), at);
    let n = reference_written(m, root, destination, id).0;
    let from = match head_id(m, root) {
        Some(b) => b,
        None => no_commit(),
    };
    let all = head_steps(n, root).push((from, id, one_line(action)));
    lemma_written(n, git_file(root, "logs/HEAD"@), encode_utf8(step_lines(kept_steps(all))), at);
}

proof fn lemma_own_names()
    ensures
        lasting("index"@),
        lasting("HEAD"@),
        "index"@ != "HEAD"@,
        "index"@ != "logs/HEAD"@,
        "index"@ != "ORIG_HEAD"@,
        "HEAD"@ != "ORIG_HEAD"@,
        !starts("index"@, "refs/"@),
{
    reveal_strlit("MERGE_HEAD");
    reveal_strlit("CHERRY_PICK_HEAD");
    reveal_strlit("REVERT_HEAD");
    reveal_strlit("MERGE_STAGES");
    reveal_strlit("MERGE_MSG");
    reveal_strlit("logs/HEAD");
    reveal_strlit("ORIG_HEAD");
    reveal_strlit("HEAD");
    reveal_strlit("index");
    reveal_strlit("refs/");
    assert("index"@.len() == 5 && "HEAD"@.len() == 4 && "MERGE_HEAD"@.len() == 10 && "MERGE_MSG"@.len() == 9);
    if starts("index"@, "refs/"@) {
        assert("index"@.subrange(0, 5)[0] == 'i');
    }
}

/// What a reset has behind it before anything moves: HEAD and the index are as they were, and so is
/// everything outside the repository.
proof fn lemma_before_reset(m: Machine, root: Seq<char>)
    requires
        plain_head(m, root),
    ensures
        plain_head(cleared(orig_head_recorded(m, root), root), root),
        head_ref(cleared(orig_head_recorded(m, root), root), root) == head_ref(m, root),
        cleared(orig_head_recorded(m, root), root).memory_limit == m.memory_limit,
        (lookup(m.files, git_file(root, "index"@)) matches Some(Thing::File { .. })) ==> kept(
            m,
            cleared(orig_head_recorded(m, root), root),
            root,
            "index"@,
        ),
        forall|at: Seq<char>| #[trigger]
            outside(root, at) && lookup(m.files, at) is Some ==> lookup(
                cleared(orig_head_recorded(m, root), root).files,
                at,
            ) == lookup(m.files, at),
        ascending(m.files) ==> ascending(cleared(orig_head_recorded(m, root), root).files),
{
    let n = orig_head_recorded(m, root);
    let after = cleared(n, root);
    lemma_own_names();
    lemma_git_files_differ(root, "ORIG_HEAD"@, "HEAD"@);
    lemma_git_files_differ(root, "ORIG_HEAD"@, "index"@);
    if let Some(id) = head_id(m, root) {
        let bytes = encode_utf8(id + "\n"@);
        lemma_written(m, git_file(root, "ORIG_HEAD"@), bytes, git_file(root, "HEAD"@));
        lemma_written(m, git_file(root, "ORIG_HEAD"@), bytes, git_file(root, "index"@));
        if ascending(m.files) && written(m, git_file(root, "ORIG_HEAD"@), bytes).1 is Ok {
            lemma_write(m, git_file(root, "ORIG_HEAD"@), bytes, git_file(root, "HEAD"@));
        }
    }
    if ascending(m.files) {
        lemma_cleared_ascends(n, root);
    }
    lemma_cleared_keeps(n, root, "HEAD"@);
    assert(readable(after, git_file(root, "HEAD"@)) == readable(m, git_file(root, "HEAD"@)));
    if lookup(m.files, git_file(root, "index"@)) matches Some(Thing::File { .. }) {
        lemma_cleared_keeps(n, root, "index"@);
    }
    assert forall|at: Seq<char>| #[trigger] outside(root, at) && lookup(m.files, at) is Some implies lookup(
        after.files,
        at,
    ) == lookup(m.files, at) by {
        if let Some(id) = head_id(m, root) {
            assert(at != git_file(root, "ORIG_HEAD"@));
            lemma_written(m, git_file(root, "ORIG_HEAD"@), encode_utf8(id + "\n"@), at);
        }
        lemma_cleared_outside(n, root, at);
    }
}

/// The end of a reset: HEAD stands on the commit, and the index is that of the commit, or as it was.
proof fn lemma_reset_ended(
    m: Machine,
    s: Screen,
    root: Seq<char>,
    mode: ResetMode,
    target: Seq<char>,
    id: Seq<char>,
    tree: Files,
)
    requires
        reset_ended(m, s, root, mode, target, id, tree).status == 0,
        plain_head(m, root),
        compact(id),
        !starts(id, "ref: "@),
        encode_utf8(id + "\n"@).len() <= m.memory_limit,
        mode != ResetMode::Soft ==> storable(tree) && tree_bytes(tree).len() <= m.memory_limit,
        mode == ResetMode::Soft ==> (lookup(m.files, git_file(root, "index"@)) matches Some(Thing::File { .. })),
    ensures
        ({
            let after = reset_ended(m, s, root, mode, target, id, tree).m;
            &&& head_id(after, root) == Some(id)
            &&& head_ref(after, root) == head_ref(m, root)
            &&& mode != ResetMode::Soft ==> index_of(after, root) == Some(tree)
            &&& mode == ResetMode::Soft ==> index_of(after, root) == index_of(m, root)
            &&& forall|at: Seq<char>| #[trigger]
                outside(root, at) && lookup(m.files, at) is Some ==> lookup(after.files, at) == lookup(m.files, at)
        }),
{
    let action = "reset: moving to "@ + target;
    let n = if mode == ResetMode::Soft {
        m
    } else {
        index_stored(m, root, tree).0
    };
    lemma_own_names();
    lemma_git_files_differ(root, "index"@, "HEAD"@);
    if mode != ResetMode::Soft {
        lemma_index_read_back(m, root, tree);
        lemma_written(m, git_file(root, "index"@), tree_bytes(tree), git_file(root, "HEAD"@));
    }
    assert(readable(n, git_file(root, "HEAD"@)) == readable(m, git_file(root, "HEAD"@)));
    if let Some(name) = head_ref(n, root) {
        lemma_lasting_names(name);
    }
    lemma_head_updated(n, root, id, action);
    lemma_head_update_keeps(n, root, id, action, "index"@);
    let n2 = head_updated(n, root, id, action).0;
    assert(readable(n2, git_file(root, "index"@)) == readable(n, git_file(root, "index"@)));
    lemma_walk_gives_back(n2, root);
    assert(unstaged_listed(n2, s, root, tree).0.files == n2.files);
    assert(unstaged_listed(n2, s, root, tree).0.memory_limit == n2.memory_limit);
    let after = reset_ended(m, s, root, mode, target, id, tree).m;
    assert(after.files == n2.files && after.memory_limit == n2.memory_limit);
    assert(readable(after, git_file(root, "index"@)) == readable(n2, git_file(root, "index"@)));
    assert(readable(after, git_file(root, "HEAD"@)) == readable(n2, git_file(root, "HEAD"@)));
    assert(head_ref(after, root) == head_ref(n2, root));
    if let Some(name) = head_ref(n2, root) {
        assert(readable(after, git_file(root, name)) == readable(n2, git_file(root, name)));
    }
    assert forall|at: Seq<char>| #[trigger] outside(root, at) && lookup(m.files, at) is Some implies lookup(
        after.files,
        at,
    ) == lookup(m.files, at) by {
        assert(at != git_file(root, "index"@));
        lemma_written(m, git_file(root, "index"@), tree_bytes(tree), at);
        lemma_head_outside(n, root, id, action, at);
    }
}

/// A reset that succeeds leaves HEAD, on the same branch, on the commit. A soft one leaves the index and
/// the working tree alone; a mixed one makes the index that of the commit and leaves the working tree
/// alone; a hard one puts every entry of the commit in its place, with the content of its blob.
#[verifier::spinoff_prover]
#[verifier::rlimit(60)]
pub proof fn lemma_reset_moves(
    m: Machine,
    s: Screen,
    root: Seq<char>,
    mode: ResetMode,
    target: Seq<char>,
    id: Seq<char>,
    tree: Files,
)
    requires
        reset_whole(m, s, root, mode, target, id, tree).status == 0,
        plain_head(m, root),
        compact(id),
        !starts(id, "ref: "@),
        encode_utf8(id + "\n"@).len() <= m.memory_limit,
        mode != ResetMode::Soft ==> storable(tree) && tree_bytes(tree).len() <= m.memory_limit,
        mode == ResetMode::Soft ==> (lookup(m.files, git_file(root, "index"@)) matches Some(Thing::File { .. })),
        mode == ResetMode::Hard ==> ascending(m.files) && apart(tree) && apart(
            overlaid(
                head_files(cleared(orig_head_recorded(m, root), root), root),
                index_of(cleared(orig_head_recorded(m, root), root), root)->0,
            ),
        ),
    ensures
        ({
            let after = reset_whole(m, s, root, mode, target, id, tree).m;
            &&& head_id(after, root) == Some(id)
            &&& head_ref(after, root) == head_ref(m, root)
            &&& mode != ResetMode::Soft ==> index_of(after, root) == Some(tree)
            &&& mode == ResetMode::Soft ==> index_of(after, root) == index_of(m, root)
            &&& mode != ResetMode::Hard ==> forall|at: Seq<char>| #[trigger]
                outside(root, at) && lookup(m.files, at) is Some ==> lookup(after.files, at) == lookup(m.files, at)
            &&& mode == ResetMode::Hard ==> forall|i: int|
                0 <= i < tree.len() ==> {
                    let data = blob_of(cleared(orig_head_recorded(m, root), root), root, (#[trigger] tree[i]).1.hash);
                    data is Some && lookup(after.files, below(root, tree[i].0)) == Some(
                        placed_thing(tree[i].1, data->0),
                    )
                }
        }),
{
    let m1 = cleared(orig_head_recorded(m, root), root);
    lemma_before_reset(m, root);
    assert((lookup(m.files, git_file(root, "index"@)) matches Some(Thing::File { .. })) ==> readable(
        m1,
        git_file(root, "index"@),
    ) == readable(m, git_file(root, "index"@)));
    if mode == ResetMode::Hard {
        let d = hard_moved(m1, s, root, tree);
        let index = index_of(m1, root)->0;
        let o = overlaid(head_files(m1, root), index);
        let n1 = reserved(m1, move_memory(m1)).1;
        assert(tree_written(m1, root, o, tree, true).1 is Ok);
        assert(tree_moved(n1, root, o, tree, true).1 is Ok);
        lemma_move_spares(m1, root, o, tree, true, "HEAD"@);
        assert(d.m == tree_written(m1, root, o, tree, true).0);
        assert(readable(d.m, git_file(root, "HEAD"@)) == readable(m1, git_file(root, "HEAD"@)));
        lemma_reset_ended(d.m, d.s, root, mode, target, id, tree);
        let after = reset_ended(d.m, d.s, root, mode, target, id, tree).m;
        assert forall|i: int| 0 <= i < tree.len() implies {
            let data = blob_of(m1, root, (#[trigger] tree[i]).1.hash);
            data is Some && lookup(after.files, below(root, tree[i].0)) == Some(placed_thing(tree[i].1, data->0))
        } by {
            lemma_entry_in_place(n1, root, o, tree, true, i);
            assert(blob_of(n1, root, tree[i].1.hash) == blob_of(m1, root, tree[i].1.hash));
            lemma_outside(root, tree[i].0);
            assert(outside(root, below(root, tree[i].0)));
        }
    } else {
        lemma_reset_ended(m1, s, root, mode, target, id, tree);
    }
}

// ---------------------------------------------------------------------------
// Removals and moves
// ---------------------------------------------------------------------------

/// A list of entries without some paths.
spec fn without_paths(index: Files, paths: Seq<Seq<char>>, i: int) -> Files
    decreases paths.len() - i,
{
    if i < 0 || i >= paths.len() {
        index
    } else {
        without_paths(unbind(index, paths[i]), paths, i + 1)
    }
}

proof fn lemma_without_paths(index: Files, paths: Seq<Seq<char>>, i: int, path: Seq<char>)
    requires
        ascending(index),
        0 <= i <= paths.len(),
    ensures
        ascending(without_paths(index, paths, i)),
        (exists|k: int| i <= k < paths.len() && #[trigger] paths[k] == path) ==> lookup(
            without_paths(index, paths, i),
            path,
        ) is None,
        !(exists|k: int| i <= k < paths.len() && #[trigger] paths[k] == path) ==> lookup(
            without_paths(index, paths, i),
            path,
        ) == lookup(index, path),
        lookup(index, path) is None ==> lookup(without_paths(index, paths, i), path) is None,
    decreases paths.len() - i,
{
    if i < paths.len() {
        let less = unbind(index, paths[i]);
        lemma_unbind_ascending(index, paths[i]);
        lemma_lookup_unbind(index, paths[i], path);
        lemma_without_paths(less, paths, i + 1, path);
        if exists|k: int| i <= k < paths.len() && #[trigger] paths[k] == path {
            let k = choose|k: int| i <= k < paths.len() && #[trigger] paths[k] == path;
            if k > i {
                assert(paths[k] == path);
            }
        }
    }
}

/// Removing one file takes that file away and no other.
proof fn lemma_one_removed(m: Machine, root: Seq<char>, path: Seq<char>, at: Seq<char>)
    requires
        ascending(m.files),
        one_removed(m, root, path).1 is Ok,
    ensures
        ascending(one_removed(m, root, path).0.files),
        one_removed(m, root, path).0.memory_limit == m.memory_limit,
        one_removed(m, root, path).0.disk_limit == m.disk_limit,
        no_file(m.files, at) ==> no_file(one_removed(m, root, path).0.files, at),
        at == below(root, path) && (lookup(m.files, at) matches Some(Thing::File { .. })) ==> no_file(
            one_removed(m, root, path).0.files,
            at,
        ),
        at != below(root, path) && !no_file(m.files, at) ==> lookup(one_removed(m, root, path).0.files, at)
            == lookup(m.files, at),
{
    let place = below(root, path);
    if file_at(m.files, place) {
        let n = settled(m, without_file(m.files, place)).0;
        lemma_unbind_ascending(m.files, place);
        lemma_lookup_unbind(m.files, place, at);
        lemma_pruned(n, root, place, at);
        lemma_pruned_limit(n, root, place);
    }
}

proof fn lemma_pruned_limit(m: Machine, root: Seq<char>, path: Seq<char>)
    ensures
        pruned(m, root, path).disk_limit == m.disk_limit,
    decreases path.len(),
{
    if let Some(d) = parent(path) {
        lemma_parent_shorter(path);
        if let Ok(f) = without_dir(m.files, d) {
            lemma_pruned_limit(with_files(m, f), root, d);
        }
    }
}

proof fn lemma_all_removed(
    m: Machine,
    root: Seq<char>,
    index: Files,
    paths: Seq<Seq<char>>,
    i: int,
    cached: bool,
    at: Seq<char>,
) -> (n: Machine)
    requires
        ascending(m.files),
        0 <= i <= paths.len(),
        all_removed(m, root, index, paths, i, cached).1 is Ok,
    ensures
        all_removed(m, root, index, paths, i, cached) == index_stored(n, root, without_paths(index, paths, i)),
        n.memory_limit == m.memory_limit,
        n.disk_limit == m.disk_limit,
        ascending(n.files),
        cached ==> n == m,
        no_file(m.files, at) ==> no_file(n.files, at),
        !cached && (exists|k: int| i <= k < paths.len() && below(root, #[trigger] paths[k]) == at) && (lookup(
            m.files,
            at,
        ) matches Some(Thing::File { .. })) ==> no_file(n.files, at),
        !(exists|k: int| i <= k < paths.len() && below(root, #[trigger] paths[k]) == at) && !no_file(m.files, at)
            ==> lookup(n.files, at) == lookup(m.files, at),
    decreases paths.len() - i,
{
    if i >= paths.len() {
        m
    } else {
        let next = if cached {
            m
        } else {
            one_removed(m, root, paths[i]).0
        };
        if !cached {
            lemma_one_removed(m, root, paths[i], at);
        }
        let n = lemma_all_removed(next, root, unbind(index, paths[i]), paths, i + 1, cached, at);
        if exists|k: int| i <= k < paths.len() && below(root, #[trigger] paths[k]) == at {
            let k = choose|k: int| i <= k < paths.len() && below(root, #[trigger] paths[k]) == at;
            if k > i {
                assert(below(root, paths[k]) == at);
            }
        } else {
            assert(below(root, paths[i]) != at);
        }
        n
    }
}

/// Marking paths as settled touches nothing but the record of unmerged paths.
proof fn lemma_resolved_keeps(m: Machine, root: Seq<char>, paths: Seq<Seq<char>>, at: Seq<char>)
    requires
        at != git_file(root, "MERGE_STAGES"@),
    ensures
        lookup(m.files, at) is Some ==> lookup(resolved_paths(m, root, paths).files, at) == lookup(m.files, at),
        ascending(m.files) && no_file(m.files, at) ==> no_file(resolved_paths(m, root, paths).files, at),
        resolved_paths(m, root, paths).memory_limit == m.memory_limit,
{
    let path = git_file(root, "MERGE_STAGES"@);
    let c = conflicts_of(m, root);
    let left = crate::stages::without_paths(c, paths);
    if c.len() > 0 {
        if left.len() == 0 {
            lemma_other_key_stays(m.files, path, at);
        } else {
            let bytes = encode_utf8(stages_text(left));
            lemma_written(m, path, bytes, at);
            if ascending(m.files) && written(m, path, bytes).1 is Ok {
                lemma_one_change(m.files, Act::PutFile { path, bytes, mode: 0o644 }, m.disk_limit as nat, at);
            }
        }
    }
}

/// A removal that succeeds takes the paths out of the index and leaves every other entry as it was. Unless
/// only the index was meant, their files are gone from the working tree; other files stay.
#[verifier::spinoff_prover]
#[verifier::rlimit(40)]
pub proof fn lemma_removed(
    m: Machine,
    s: Screen,
    root: Seq<char>,
    asked: RmAsk,
    index: Files,
    paths: Seq<Seq<char>>,
    path: Seq<char>,
    at: Seq<char>,
) -> (t: Files)
    requires
        rm_ended(m, s, root, asked, index, paths).status == 0,
        ascending(m.files),
        ascending(index),
        outside(root, at),
    ensures
        paths.contains(path) ==> lookup(t, path) is None,
        !paths.contains(path) ==> lookup(t, path) == lookup(index, path),
        storable(t) && tree_bytes(t).len() <= m.memory_limit ==> index_of(
            rm_ended(m, s, root, asked, index, paths).m,
            root,
        ) == Some(t),
        ({
            let after = rm_ended(m, s, root, asked, index, paths).m;
            let named = exists|k: int| 0 <= k < paths.len() && below(root, #[trigger] paths[k]) == at;
            (asked.cached || !named) && !no_file(m.files, at) ==> lookup(after.files, at) == lookup(m.files, at)
        }),
        ({
            let after = rm_ended(m, s, root, asked, index, paths).m;
            let named = exists|k: int| 0 <= k < paths.len() && below(root, #[trigger] paths[k]) == at;
            !asked.cached && named && (lookup(m.files, at) matches Some(Thing::File { .. })) ==> no_file(
                after.files,
                at,
            )
        }),
{
    let m1 = reserved(m, move_memory(m)).1;
    let n = lemma_all_removed(m1, root, index, paths, 0, asked.cached, at);
    let t = without_paths(index, paths, 0);
    lemma_without_paths(index, paths, 0, path);
    let m2 = index_stored(n, root, t).0;
    let m3 = released(m2, move_memory(m));
    let after = resolved_paths(m3, root, paths);
    lemma_stage_names();
    lemma_git_files_differ(root, "MERGE_STAGES"@, "index"@);
    assert(at != git_file(root, "index"@));
    assert(at != git_file(root, "MERGE_STAGES"@));
    lemma_written(n, git_file(root, "index"@), tree_bytes(t), at);
    lemma_resolved_keeps(m3, root, paths, git_file(root, "index"@));
    lemma_resolved_keeps(m3, root, paths, at);
    if storable(t) && tree_bytes(t).len() <= m.memory_limit {
        lemma_index_read_back(n, root, t);
        lemma_written(n, git_file(root, "index"@), tree_bytes(t), git_file(root, "index"@));
        assert(readable(m3, git_file(root, "index"@)) == readable(m2, git_file(root, "index"@)));
        assert(readable(after, git_file(root, "index"@)) == readable(m3, git_file(root, "index"@)));
    }
    assert(paths.contains(path) <==> exists|k: int| 0 <= k < paths.len() && #[trigger] paths[k] == path);
    let bytes = tree_bytes(t);
    let place = git_file(root, "index"@);
    lemma_one_change(n.files, Act::PutFile { path: place, bytes, mode: 0o644 }, n.disk_limit as nat, at);
    t
}

proof fn lemma_stage_names()
    ensures
        "MERGE_STAGES"@ != "index"@,
{
    reveal_strlit("MERGE_STAGES");
    reveal_strlit("index");
    assert("MERGE_STAGES"@.len() != "index"@.len());
}

/// A move of one path: the index holds the entry under its new name, with the content of the file and the
/// modes that were recorded, no longer under the old one, and every other entry as it was.
pub proof fn lemma_moved(m: Machine, root: Seq<char>, index: Files, x: Step, other: Seq<char>)
    requires
        step_made(m, root, index, x).1 is Ok,
        ascending(index),
        x.source != x.target_relative,
    ensures
        ({
            let t = step_made(m, root, index, x).1->Ok_0;
            let data = work_content(m, root, x.source);
            &&& data is Some
            &&& lookup(t, x.target_relative) is Some
            &&& lookup(t, x.target_relative)->0.hash == blob_id(data->0)
            &&& lookup(index, x.source) matches Some(r) ==> lookup(t, x.target_relative)->0.executable == r.executable
                && lookup(t, x.target_relative)->0.symlink == r.symlink
            &&& lookup(t, x.source) is None
            &&& other != x.source && other != x.target_relative ==> lookup(t, other) == lookup(index, other)
        }),
{
    let data = work_content(m, root, x.source)->0;
    let less = unbind(index, x.source);
    let r = moved_entry(index, x.source, data);
    lemma_lookup_unbind(index, x.source, x.source);
    lemma_lookup_unbind(index, x.source, other);
    lemma_lookup_unbind(index, x.source, x.target_relative);
    lemma_lookup_bind(less, x.target_relative, r, x.target_relative);
    lemma_lookup_bind(less, x.target_relative, r, x.source);
    lemma_lookup_bind(less, x.target_relative, r, other);
}

} // verus!
