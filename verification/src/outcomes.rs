//! What merging, picking, reverting and replaying come to: the commit that HEAD then stands on.

use vstd::prelude::*;

use crate::combine::{
    any_of_three, lemma_combined_path, mixed, mixed_from, path_mixed, sides_of, text_at, versions_at, Mix, Versions,
};
use crate::common::{parent_needed, tree_needed, trio_read};
use crate::compare::changed_paths;
use crate::configuration::{identity_of, Overrides};
use crate::console::{Done, Screen};
use crate::dates::clock_seconds;
use crate::diff::binary;
use crate::history::Names;
use crate::joining::{histories_merged, merge_committed, merge_settled, merge_subject, Ends, MergeWish};
use crate::merging::merged_content;
use crate::objects::{blob_id, short_id};
use crate::names::{lemma_with_keys, with_keys};
use crate::order::{ascending, lemma_lookup_bind, lemma_lookup_place, lookup};
use crate::placing::apart;
use crate::progress::{rebase_stored, Rebase, Run};
use crate::rebasing::{all_rebased, first_parent_of, one_rebased, rebase_settled, replay_recorded, replayed_note};
use crate::recording::{fits, lemma_recorded, plain_head, stands_on};
use crate::records::{subject_of, Note};
use crate::replaying::{
    index_touched, one_replayed, replay_applied, replay_committed, replay_label, replay_message, replay_name,
    replay_settled, run_carried_out, Grounds, Pick,
};
use crate::repo::{commit_of, git_file, head_id, head_ref, index_stored, readable, tree_at, written};
use crate::stages::Sides;
use crate::storage::{lemma_git_files_differ, lemma_written};
use crate::stowing::{lemma_move_spares, lemma_write, same_file};
use crate::system::Machine;
use crate::trees::{tree_bytes, Files, Record};
use crate::worktree::tree_written;

verus! {

// ---------------------------------------------------------------------------
// What the steps before a commit leave alone
// ---------------------------------------------------------------------------

/// Whether one machine has the HEAD of another and as much memory.
spec fn same_head(a: Machine, b: Machine, root: Seq<char>) -> bool {
    &&& same_file(a, b, git_file(root, "HEAD"@))
    &&& b.memory_limit == a.memory_limit
}

proof fn lemma_same_head(a: Machine, b: Machine, root: Seq<char>)
    requires
        same_head(a, b, root),
        plain_head(a, root),
    ensures
        plain_head(b, root),
        head_ref(b, root) == head_ref(a, root),
{
    assert(readable(b, git_file(root, "HEAD"@)) == readable(a, git_file(root, "HEAD"@)));
}

proof fn lemma_git_write_keeps(m: Machine, root: Seq<char>, name: Seq<char>, bytes: Seq<u8>)
    requires
        plain_head(m, root),
        name != "HEAD"@,
        written(m, git_file(root, name), bytes).1 is Ok,
    ensures
        same_head(m, written(m, git_file(root, name), bytes).0, root),
        ascending(m.files) ==> ascending(written(m, git_file(root, name), bytes).0.files),
{
    lemma_git_files_differ(root, name, "HEAD"@);
    lemma_written(m, git_file(root, name), bytes, git_file(root, "HEAD"@));
    if ascending(m.files) {
        lemma_write(m, git_file(root, name), bytes, git_file(root, "HEAD"@));
    }
}

proof fn lemma_not_head(name: Seq<char>)
    ensures
        "objects/"@ + name != "HEAD"@,
        "index"@ != "HEAD"@,
{
    reveal_strlit("objects/");
    reveal_strlit("index");
    reveal_strlit("HEAD");
    assert(("objects/"@ + name).len() >= 8);
    assert("HEAD"@.len() == 4 && "index"@.len() == 5);
}

proof fn lemma_mixed_keeps(
    m: Machine,
    root: Seq<char>,
    x: Mix,
    names: Names,
    i: int,
    trees: (Files, Files, Files),
    labels: (Seq<char>, Seq<char>),
)
    requires
        ascending(m.files),
        plain_head(m, root),
        mixed_from(m, root, x, names, i, trees, labels).1 is Ok,
    ensures
        same_head(m, mixed_from(m, root, x, names, i, trees, labels).0, root),
        ascending(mixed_from(m, root, x, names, i, trees, labels).0.files),
    decreases names.len() - i,
{
    if 0 <= i < names.len() {
        let path = names[i].0;
        let v = versions_at(trees.0, trees.1, trees.2, path);
        let (n, r) = path_mixed(m, root, x, path, v, labels);
        let data = merged_content(
            text_at(m, root, v.base),
            text_at(m, root, v.ours),
            text_at(m, root, v.theirs),
            labels,
        ).0;
        lemma_not_head(blob_id(data));
        if n != m {
            lemma_git_write_keeps(m, root, "objects/"@ + blob_id(data), data);
        }
        lemma_same_head(m, n, root);
        lemma_mixed_keeps(n, root, r->Ok_0, names, i + 1, trees, labels);
    }
}

/// Writing the files and the index of a tree leaves HEAD alone.
proof fn lemma_laid_out_keeps(m: Machine, root: Seq<char>, o: Files, t: Files, index: Files)
    requires
        ascending(m.files),
        ascending(t),
        apart(o),
        apart(t),
        plain_head(m, root),
        tree_written(m, root, o, t, false).1 is Ok,
        index_stored(tree_written(m, root, o, t, false).0, root, index).1 is Ok,
    ensures
        same_head(m, index_stored(tree_written(m, root, o, t, false).0, root, index).0, root),
{
    let n = tree_written(m, root, o, t, false).0;
    lemma_not_head("index"@);
    lemma_move_spares(m, root, o, t, false, "HEAD"@);
    lemma_same_head(m, n, root);
    lemma_git_write_keeps(n, root, "index"@, tree_bytes(index));
}

// ---------------------------------------------------------------------------
// Combining trees
// ---------------------------------------------------------------------------

/// Whether a tree takes up what both sides changed: a path that only one side touched is as that side
/// has it, and one that both changed to the same is as both have it.
pub open spec fn takes_up(base: Files, ours: Files, theirs: Files, tree: Files) -> bool {
    forall|path: Seq<char>|
        {
            &&& lookup(ours, path) == lookup(base, path) ==> #[trigger] lookup(tree, path) == lookup(theirs, path)
            &&& lookup(theirs, path) == lookup(base, path) ==> lookup(tree, path) == lookup(ours, path)
            &&& lookup(ours, path) == lookup(theirs, path) ==> lookup(tree, path) == lookup(ours, path)
        }
}

/// Trees that could be combined are taken up.
pub proof fn lemma_combined_takes_up(
    m: Machine,
    root: Seq<char>,
    trees: (Files, Files, Files),
    labels: (Seq<char>, Seq<char>),
)
    requires
        mixed(m, root, trees, labels).1 is Ok,
    ensures
        takes_up(trees.0, trees.1, trees.2, mixed(m, root, trees, labels).1->Ok_0.tree),
{
    let tree = mixed(m, root, trees, labels).1->Ok_0.tree;
    assert forall|path: Seq<char>|
        {
            &&& lookup(trees.1, path) == lookup(trees.0, path) ==> #[trigger] lookup(tree, path) == lookup(
                trees.2,
                path,
            )
            &&& lookup(trees.2, path) == lookup(trees.0, path) ==> lookup(tree, path) == lookup(trees.1, path)
            &&& lookup(trees.1, path) == lookup(trees.2, path) ==> lookup(tree, path) == lookup(trees.1, path)
        } by {
        lemma_combined_path(m, root, trees, labels, path);
    }
}

// ---------------------------------------------------------------------------
// Merges
// ---------------------------------------------------------------------------

/// A merge of two lines of history that succeeds leaves HEAD, on the same branch, on a commit whose
/// parents are where HEAD stood and what was merged, in this order. Its tree takes up what both sides
/// changed since their base. The commit can be stored and fits into memory, and the trees hold nothing
/// that lies in the directory of the repository.
#[verifier::spinoff_prover]
#[verifier::rlimit(40)]
pub proof fn lemma_merge_joins_both(
    m: Machine,
    s: Screen,
    root: Seq<char>,
    g: Overrides,
    x: MergeWish,
    e: Ends,
    base: Option<Seq<char>>,
    incoming: Files,
    base_tree: Files,
    head_tree: Files,
) -> (r: (Note, Files))
    requires
        histories_merged(m, s, root, g, x, e, base, incoming).status == 0,
        base matches Some(b) ==> tree_at(m, root, b) == Some(base_tree),
        base is None ==> base_tree == Seq::<(Seq<char>, Record)>::empty(),
        tree_at(m, root, e.head) == Some(head_tree),
        ascending(m.files),
        plain_head(m, root),
        apart(head_tree),
        ({
            let tree = mixed(m, root, (base_tree, head_tree, incoming), ("HEAD"@, e.target)).1->Ok_0.tree;
            ascending(tree) && apart(tree)
        }),
    ensures
        r.0.parents == seq![e.head, e.other],
        r.0.message == merge_subject(m, root, x, e.target),
        takes_up(base_tree, head_tree, incoming, r.1),
        fits(r.0, r.1, m.memory_limit as int) ==> stands_on(
            m,
            histories_merged(m, s, root, g, x, e, base, incoming).m,
            root,
            r.0,
            r.1,
        ),
{
    let labels = ("HEAD"@, e.target);
    let trees = (base_tree, head_tree, incoming);
    let (t, _) = parent_needed(m, s, root, base);
    let (u, _) = tree_needed(m, t, root, e.head);
    let (n, got) = mixed(m, root, trees, labels);
    let mix = got->Ok_0;
    let subject = merge_subject(m, root, x, e.target);
    assert(histories_merged(m, s, root, g, x, e, base, incoming) == merge_settled(
        n,
        u,
        root,
        g,
        e,
        subject,
        head_tree,
        mix,
    ));
    lemma_combined_takes_up(m, root, trees, labels);
    lemma_mixed_keeps(
        m,
        root,
        Mix { tree: seq![], stages: seq![] },
        any_of_three(base_tree, head_tree, incoming),
        0,
        trees,
        labels,
    );
    lemma_same_head(m, n, root);
    let n1 = tree_written(n, root, head_tree, mix.tree, false).0;
    let n2 = index_stored(n1, root, mix.tree).0;
    lemma_laid_out_keeps(n, root, head_tree, mix.tree, mix.tree);
    lemma_same_head(n, n2, root);
    let who = identity_of(n2, root, g);
    let note = Note {
        parents: seq![e.head, e.other],
        author_name: who.0,
        author_email: who.1,
        timestamp: clock_seconds(n2),
        message: subject,
    };
    assert(merge_settled(n, u, root, g, e, subject, head_tree, mix) == merge_committed(
        n2,
        u,
        root,
        g,
        e,
        subject,
        head_tree,
        mix.tree,
    ));
    if fits(note, mix.tree, m.memory_limit as int) {
        lemma_recorded(n2, root, note, mix.tree, "merge "@ + e.target);
    }
    (note, mix.tree)
}

// ---------------------------------------------------------------------------
// Picks and reverts
// ---------------------------------------------------------------------------

/// A pick or a revert that succeeds leaves HEAD, on the same branch, on a commit whose parent is where
/// HEAD stood. Its tree takes up what HEAD holds and what the commit changed; for a revert, what undoes
/// it. So picking onto the parent of a commit gives the tree of the commit, and reverting the commit
/// that HEAD stands on gives the tree of its parent.
#[verifier::spinoff_prover]
#[verifier::rlimit(40)]
pub proof fn lemma_pick_applies_change(
    m: Machine,
    s: Screen,
    root: Seq<char>,
    g: Overrides,
    x: Run,
    p: Pick,
    k: Grounds,
) -> (r: (Note, Files))
    requires
        replay_applied(m, s, root, g, x, p, k).status == 0,
        !x.no_commit,
        ascending(trio_read(m, s, root).0.files),
        plain_head(trio_read(m, s, root).0, root),
        apart(k.head),
        ({
            let trees = if x.revert {
                (k.commit, k.head, k.parent)
            } else {
                (k.parent, k.head, k.commit)
            };
            let n = trio_read(m, s, root).0;
            let tree = mixed(n, root, trees, ("HEAD"@, replay_label(p))).1->Ok_0.tree;
            ascending(tree) && apart(tree)
        }),
    ensures
        r.0.parents == seq![p.head],
        !x.revert ==> r.0.message == p.note.message && r.0.author_name == p.note.author_name && r.0.author_email
            == p.note.author_email && takes_up(k.parent, k.head, k.commit, r.1),
        x.revert ==> takes_up(k.commit, k.head, k.parent, r.1),
        !x.revert && k.head == k.parent ==> forall|path: Seq<char>| #[trigger]
            lookup(r.1, path) == lookup(k.commit, path),
        x.revert && k.head == k.commit ==> forall|path: Seq<char>| #[trigger]
            lookup(r.1, path) == lookup(k.parent, path),
        fits(r.0, r.1, trio_read(m, s, root).0.memory_limit as int) ==> stands_on(
            trio_read(m, s, root).0,
            replay_applied(m, s, root, g, x, p, k).m,
            root,
            r.0,
            r.1,
        ),
{
    let (n, t, got) = trio_read(m, s, root);
    let trio = got->Ok_0;
    let labels = ("HEAD"@, replay_label(p));
    let trees = if x.revert {
        (k.commit, k.head, k.parent)
    } else {
        (k.parent, k.head, k.commit)
    };
    let (n0, mixing) = mixed(n, root, trees, labels);
    let mix = mixing->Ok_0;
    assert(replay_applied(m, s, root, g, x, p, k) == replay_settled(n0, t, root, g, x, p, trio.index, k.head, mix));
    lemma_combined_takes_up(n, root, trees, labels);
    lemma_mixed_keeps(
        n,
        root,
        Mix { tree: seq![], stages: seq![] },
        any_of_three(trees.0, trees.1, trees.2),
        0,
        trees,
        labels,
    );
    lemma_same_head(n, n0, root);
    let index = index_touched(trio.index, mix.tree, changed_paths(k.head, mix.tree, seq![]));
    let n1 = tree_written(n0, root, k.head, mix.tree, false).0;
    let n2 = index_stored(n1, root, index).0;
    lemma_laid_out_keeps(n0, root, k.head, mix.tree, index);
    lemma_same_head(n0, n2, root);
    assert(replay_settled(n0, t, root, g, x, p, trio.index, k.head, mix) == replay_committed(
        n2,
        t,
        root,
        g,
        x.revert,
        p,
        k.head,
        mix.tree,
    ));
    let who = if x.revert {
        identity_of(n2, root, g)
    } else {
        (p.note.author_name, p.note.author_email)
    };
    let note = Note {
        parents: seq![p.head],
        author_name: who.0,
        author_email: who.1,
        timestamp: clock_seconds(n2),
        message: replay_message(x.revert, p),
    };
    if fits(note, mix.tree, n.memory_limit as int) {
        lemma_recorded(
            n2,
            root,
            note,
            mix.tree,
            replay_name(x.revert) + ": "@ + subject_of(note.message),
        );
    }
    (note, mix.tree)
}

// ---------------------------------------------------------------------------
// Rebases
// ---------------------------------------------------------------------------

/// A commit that was replayed, and that changes anything where it goes, is what HEAD then stands on. Its
/// parent is where HEAD stood; who, when and why are those of the original; its tree takes up what HEAD
/// holds and what the original changed against its own first parent.
#[verifier::spinoff_prover]
#[verifier::rlimit(40)]
pub proof fn lemma_replayed_commit(
    m: Machine,
    s: Screen,
    root: Seq<char>,
    x: Rebase,
    head: Seq<char>,
    original: Note,
    base: Files,
    ours: Files,
    theirs: Files,
) -> (tree: Files)
    requires
        one_rebased(m, s, root, x).status == 0,
        head_id(m, root) == Some(head),
        commit_of(m, root, x.todo[0]) == Some(original),
        original.parents.len() > 0 ==> tree_at(m, root, original.parents[0]) == Some(base),
        original.parents.len() == 0 ==> base == Seq::<(Seq<char>, Record)>::empty(),
        tree_at(m, root, x.todo[0]) == Some(theirs),
        tree_at(m, root, head) == Some(ours),
        ascending(m.files),
        plain_head(m, root),
        head_ref(m, root) is None,
        apart(ours),
        ({
            let label = short_id(x.todo[0]) + " ("@ + subject_of(original.message)
                + ")"@;
            let tree = mixed(m, root, (base, ours, theirs), ("HEAD"@, label)).1->Ok_0.tree;
            ascending(tree) && apart(tree)
        }),
    ensures
        takes_up(base, ours, theirs, tree),
        ({
            let note = Note { parents: seq![head], ..original };
            let after = one_rebased(m, s, root, x).m;
            tree != ours && fits(note, tree, m.memory_limit as int) ==> stands_on(m, after, root, note, tree)
        }),
{
    let id = x.todo[0];
    let label = short_id(id) + " ("@ + subject_of(original.message) + ")"@;
    let labels = ("HEAD"@, label);
    let trees = (base, ours, theirs);
    let (n, got) = mixed(m, root, trees, labels);
    let mix = got->Ok_0;
    let (t, _) = parent_needed(m, s, root, first_parent_of(original));
    let (u, _) = tree_needed(m, t, root, id);
    let (w, _) = tree_needed(m, u, root, head);
    assert(one_rebased(m, s, root, x) == rebase_settled(n, w, root, x, original, label, ours, mix));
    lemma_combined_takes_up(m, root, trees, labels);
    lemma_mixed_keeps(
        m,
        root,
        Mix { tree: seq![], stages: seq![] },
        any_of_three(base, ours, theirs),
        0,
        trees,
        labels,
    );
    lemma_same_head(m, n, root);
    let n1 = tree_written(n, root, ours, mix.tree, false).0;
    let n2 = index_stored(n1, root, mix.tree).0;
    lemma_laid_out_keeps(n, root, ours, mix.tree, mix.tree);
    lemma_same_head(n, n2, root);
    let note = Note { parents: seq![head], ..original };
    if mix.tree != ours && fits(note, mix.tree, m.memory_limit as int) {
        assert(readable(n2, git_file(root, "HEAD"@)) == readable(m, git_file(root, "HEAD"@)));
        assert(head_id(n2, root) == Some(head));
        assert(rebase_settled(n, w, root, x, original, label, ours, mix) == replay_recorded(
            n2,
            w,
            root,
            original,
            mix.tree,
            "pick"@,
        ));
        assert(note == replayed_note(original, head));
        lemma_recorded(
            n2,
            root,
            note,
            mix.tree,
            "rebase ("@ + "pick"@ + "): "@ + subject_of(original.message),
        );
    }
    mix.tree
}

/// A rebase that ends well has replayed the first commit of its list, and then all that the rest of the
/// list asks for, on the same branch.
pub proof fn lemma_replays_in_turn(m: Machine, s: Screen, root: Seq<char>, x: Rebase) -> (r: (Machine, Screen, Rebase))
    requires
        all_rebased(m, s, root, x).status == 0,
        x.todo.len() > 0,
    ensures
        one_rebased(m, s, root, x).status == 0,
        r.2.todo.len() == x.todo.len() - 1,
        forall|i: int| 0 <= i < r.2.todo.len() ==> #[trigger] r.2.todo[i] == x.todo[i + 1],
        (r.2.branch, r.2.original, r.2.onto) == (x.branch, x.original, x.onto),
        rebase_stored(one_rebased(m, s, root, x).m, root, r.2) == (r.0, true),
        all_rebased(m, s, root, x) == all_rebased(r.0, r.1, root, r.2),
{
    let d = one_rebased(m, s, root, x);
    let rest = Rebase { todo: x.todo.skip(1), ..x };
    (rebase_stored(d.m, root, rest).0, d.s, rest)
}

/// Picks or reverts that end well have applied the first commit of the list, and then all that the rest of
/// the list asks for.
pub proof fn lemma_picks_in_turn(m: Machine, s: Screen, root: Seq<char>, g: Overrides, x: Run) -> (r: (
    Machine,
    Screen,
    Run,
))
    requires
        run_carried_out(m, s, root, g, x).status == 0,
        x.todo.len() > 0,
    ensures
        r.2.todo.len() == x.todo.len() - 1,
        forall|i: int| 0 <= i < r.2.todo.len() ==> #[trigger] r.2.todo[i] == x.todo[i + 1],
        (r.2.revert, r.2.no_commit, r.2.mainline, r.2.original) == (x.revert, x.no_commit, x.mainline, x.original),
        one_replayed(m, s, root, g, r.2, x.todo[0]) == (Done { m: r.0, s: r.1, status: 0 }),
        run_carried_out(m, s, root, g, x) == run_carried_out(r.0, r.1, root, g, r.2),
{
    let rest = Run { todo: x.todo.skip(1), ..x };
    let d = one_replayed(m, s, root, g, rest, x.todo[0]);
    (d.m, d.s, rest)
}

// ---------------------------------------------------------------------------
// Paths that both sides changed
// ---------------------------------------------------------------------------

/// Whether both sides changed a path, and not to the same.
pub open spec fn contested(trees: (Files, Files, Files), path: Seq<char>) -> bool {
    &&& lookup(trees.1, path) != lookup(trees.0, path)
    &&& lookup(trees.2, path) != lookup(trees.0, path)
    &&& lookup(trees.1, path) != lookup(trees.2, path)
}

/// Whether the record of an unmerged path holds the three versions of it.
pub open spec fn holds_sides(u: Sides, trees: (Files, Files, Files), path: Seq<char>) -> bool {
    &&& u.base is Some <==> lookup(trees.0, path) is Some
    &&& u.ours is Some <==> lookup(trees.1, path) is Some
    &&& u.theirs is Some <==> lookup(trees.2, path) is Some
    &&& u.base is Some ==> u.base->0 == lookup(trees.0, path)->0.hash
    &&& u.ours is Some ==> u.ours->0 == lookup(trees.1, path)->0.hash
    &&& u.theirs is Some ==> u.theirs->0 == lookup(trees.2, path)->0.hash
}

proof fn lemma_contested_from(
    m: Machine,
    root: Seq<char>,
    x: Mix,
    names: Names,
    i: int,
    trees: (Files, Files, Files),
    labels: (Seq<char>, Seq<char>),
    path: Seq<char>,
)
    requires
        0 <= i <= names.len(),
        mixed_from(m, root, x, names, i, trees, labels).1 is Ok,
        lookup(x.stages, path) is Some ==> contested(trees, path) && holds_sides(
            lookup(x.stages, path)->0,
            trees,
            path,
        ),
    ensures
        ({
            let y = mixed_from(m, root, x, names, i, trees, labels).1->Ok_0;
            let named = exists|j: int| i <= j < names.len() && (#[trigger] names[j]).0 == path;
            &&& lookup(y.stages, path) is Some ==> contested(trees, path) && holds_sides(
                lookup(y.stages, path)->0,
                trees,
                path,
            )
            &&& lookup(x.stages, path) is Some ==> lookup(y.stages, path) is Some
            &&& named && contested(trees, path) && (lookup(trees.1, path) is None || lookup(trees.2, path) is None)
                ==> lookup(y.stages, path) is Some
        }),
    decreases names.len() - i,
{
    if i < names.len() {
        let at = names[i].0;
        let v = versions_at(trees.0, trees.1, trees.2, at);
        let (n, r) = path_mixed(m, root, x, at, v, labels);
        lemma_lookup_bind(x.stages, at, sides_of(v), path);
        lemma_contested_from(n, root, r->Ok_0, names, i + 1, trees, labels, path);
        if exists|j: int| i <= j < names.len() && (#[trigger] names[j]).0 == path {
            let j = choose|j: int| i <= j < names.len() && (#[trigger] names[j]).0 == path;
            if j > i {
                assert(names[j].0 == path);
            }
        }
    }
}

/// What is left unmerged: only paths that both sides changed differently, each with the three versions of
/// it. One that a side took away and the other changed always is.
pub proof fn lemma_unmerged_paths(
    m: Machine,
    root: Seq<char>,
    trees: (Files, Files, Files),
    labels: (Seq<char>, Seq<char>),
    path: Seq<char>,
)
    requires
        mixed(m, root, trees, labels).1 is Ok,
    ensures
        ({
            let y = mixed(m, root, trees, labels).1->Ok_0;
            &&& lookup(y.stages, path) is Some ==> contested(trees, path) && holds_sides(
                lookup(y.stages, path)->0,
                trees,
                path,
            )
            &&& contested(trees, path) && (lookup(trees.1, path) is None || lookup(trees.2, path) is None) ==> lookup(
                y.stages,
                path,
            ) is Some
        }),
{
    let names = any_of_three(trees.0, trees.1, trees.2);
    let none: Names = seq![];
    let x = Mix { tree: seq![], stages: seq![] };
    lemma_with_keys(none, trees.0, path);
    lemma_with_keys(with_keys(none, trees.0), trees.1, path);
    lemma_with_keys(with_keys(with_keys(none, trees.0), trees.1), trees.2, path);
    if contested(trees, path) {
        if lookup(trees.1, path) is Some {
            let k = lemma_lookup_place(trees.1, path);
            assert(trees.1[k].0 == path);
        } else if lookup(trees.2, path) is Some {
            let k = lemma_lookup_place(trees.2, path);
            assert(trees.2[k].0 == path);
        }
        let k = lemma_lookup_place(names, path);
        assert(names[k].0 == path);
    }
    lemma_contested_from(m, root, x, names, 0, trees, labels, path);
}

/// A path whose text both sides changed differently is merged line by line: the tree holds the merged
/// content, which may be run where it may on either side, and the path is unmerged exactly if the merge is
/// a conflict.
pub proof fn lemma_contested_content(
    m: Machine,
    root: Seq<char>,
    x: Mix,
    path: Seq<char>,
    base: Option<Record>,
    ours: Record,
    theirs: Record,
    labels: (Seq<char>, Seq<char>),
)
    requires
        base != Some(ours),
        base != Some(theirs),
        ours != theirs,
        !binary(text_at(m, root, base)),
        !binary(text_at(m, root, Some(ours))),
        !binary(text_at(m, root, Some(theirs))),
        path_mixed(m, root, x, path, Versions { base, ours: Some(ours), theirs: Some(theirs) }, labels).1 is Ok,
        lookup(x.stages, path) is None,
    ensures
        ({
            let y = path_mixed(
                m,
                root,
                x,
                path,
                Versions { base, ours: Some(ours), theirs: Some(theirs) },
                labels,
            ).1->Ok_0;
            let (data, conflict) = merged_content(
                text_at(m, root, base),
                text_at(m, root, Some(ours)),
                text_at(m, root, Some(theirs)),
                labels,
            );
            &&& lookup(y.tree, path) == Some(
                Record {
                    hash: blob_id(data),
                    executable: ours.executable || theirs.executable,
                    symlink: false,
                },
            )
            &&& lookup(y.stages, path) is Some <==> conflict
        }),
{
    let v = Versions { base, ours: Some(ours), theirs: Some(theirs) };
    let data = merged_content(
        text_at(m, root, base),
        text_at(m, root, Some(ours)),
        text_at(m, root, Some(theirs)),
        labels,
    ).0;
    let r = Record { hash: blob_id(data), executable: ours.executable || theirs.executable, symlink: false };
    lemma_lookup_bind(x.tree, path, r, path);
    lemma_lookup_bind(x.stages, path, sides_of(v), path);
}

} // verus!
