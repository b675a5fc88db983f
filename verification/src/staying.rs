//! No command leaves the directory that it runs in.

use vstd::prelude::*;

use crate::combine::{mixed, mixed_from, path_mixed, versions_at, Mix, Versions};
use crate::committing::{commit_checked, commit_done, commit_stored_and_shown, CommitWish};
use crate::common::{trio_read, Trio};
use crate::configuration::{config_done, remote_done, settings_stored, Overrides};
use crate::console::{complained, printed, Screen};
use crate::git::{
    alias_bound, authored_command, begun, command_run, dispatched, files_command, git_run, history_command,
    init_done, inspection_command, movement_command, report_command, unaliased, Begin,
};
use crate::history::Names;
use crate::importing::directories_made;
use crate::inspecting::{contents_named, hash_object_done};
use crate::joining::{fast_forwarded, histories_merged, merge_carried_out, merge_done, Ends, MergeWish};
use crate::listing::{clean_done, cleaned, entry_removed};
use crate::moves::checked_out;
use crate::moving::{
    all_removed, mv_done, mv_ended, one_removed, rm_all_checked, rm_checked, rm_done, rm_ended, rm_operand,
    rm_operands, step_made, steps_made, Knowledge, RmAsk, Step,
};
use crate::objects::{blob_id, short_id};
use crate::order::unbind;
use crate::pausing::{paused, pending_aborted, pending_continued, Pause};
use crate::progress::{rebase_stored, Rebase, Run};
use crate::reading::{
    lemma_cat_file_only_reads, lemma_check_ignore_only_reads, lemma_describe_only_reads, lemma_diff_only_reads,
    lemma_for_each_ref_only_reads, lemma_log_only_reads, lemma_ls_files_only_reads, lemma_ls_tree_only_reads,
    lemma_merge_base_only_reads, lemma_rev_list_only_reads, lemma_rev_parse_only_reads, lemma_search_only_reads,
    lemma_shortlog_only_reads, lemma_show_only_reads, lemma_show_ref_only_reads, lemma_status_only_reads,
};
use crate::rebasing::{
    all_rebased, laid_down, one_rebased, rebase_aborted, rebase_acted, rebase_carried_out, rebase_done,
    rebase_resumed, rebase_skipped, replay_begun, stored_and_rebased, Route,
};
use crate::records::Note;
use crate::references::{
    branch_deleted, branch_done, branches_deleted, formatted_from, ref_text, reference_deleted,
};
use crate::replaying::{one_replayed, replay_done, replay_started, run_carried_out, ReplayAsk};
use crate::repo::{blob_of, blob_stored, head_updated, reference_of, written};
use crate::reporting::symbolic_ref_done;
use crate::restoring::{reset_done, reset_whole, restore_done, restored, side_taken, sides_written, ResetMode};
use crate::settings::Keys;
use crate::showing::or_empty;
use crate::stages::{cleared, resolved_paths, Conflicts};
use crate::staging::{add_done, add_within, changes_staged, path_staged, staged_from, AddAsk, Staging};
use crate::stashing::{
    contents_saved, entry_saved, stash_acted, stash_applied, stash_done, stash_dropped, stash_pushed,
    stash_restored, StashWish,
};
use crate::switching::{checkout_done, created_and_switched, switch_done, switched_away, switched_to};
use crate::syntax::pass_for;
use crate::system::{
    below, dir_at, lemma_parent_shorter, parent, settled, with_files, with_parents, without_dir, Machine,
};
use crate::tagging::{tag_done, tag_listed, tags_deleted, tags_listed, TagWish};
use crate::trees::Files;
use crate::worktree::{all_pruned, pruned, tree_written, work_content, working_tree};

verus! {

// ---------------------------------------------------------------------------
// The steps that commands are made of, and the commands
// ---------------------------------------------------------------------------

broadcast proof fn lemma_working_tree(m: Machine, root: Seq<char>)
    ensures
        (#[trigger] working_tree(m, root)).0.cwd == m.cwd,
{
}

broadcast proof fn lemma_resolved_paths(m: Machine, root: Seq<char>, paths: Seq<Seq<char>>)
    ensures
        (#[trigger] resolved_paths(m, root, paths)).cwd == m.cwd,
{
}

broadcast proof fn lemma_path_staged(
    m: Machine,
    s: Screen,
    root: Seq<char>,
    index: Files,
    work: Files,
    path: Seq<char>,
    staging: Staging,
)
    ensures
        match #[trigger] path_staged(m, s, root, index, work, path, staging) {
            Ok(x) => x.0.cwd == m.cwd,
            Err(d) => d.m.cwd == m.cwd,
        },
{
}

broadcast proof fn lemma_staged_from(
    m: Machine,
    s: Screen,
    root: Seq<char>,
    index: Files,
    work: Files,
    paths: Seq<Seq<char>>,
    i: int,
    staging: Staging,
)
    ensures
        (#[trigger] staged_from(m, s, root, index, work, paths, i, staging)).m.cwd == m.cwd,
    decreases paths.len() - i,
{
    broadcast use lemma_path_staged;

    if 0 <= i < paths.len() {
        if let Ok((n, t, more)) = path_staged(m, s, root, index, work, paths[i], staging) {
            lemma_staged_from(n, t, root, more, work, paths, i + 1, staging);
        }
    }
}

broadcast proof fn lemma_add_within(
    m: Machine,
    s: Screen,
    root: Seq<char>,
    asked: AddAsk,
    operands: Seq<Seq<char>>,
    index: Files,
    work: Files,
)
    ensures
        (#[trigger] add_within(m, s, root, asked, operands, index, work)).m.cwd == m.cwd,
{
    broadcast use {lemma_resolved_paths, lemma_staged_from};
}

broadcast proof fn lemma_add_done(m: Machine, s: Screen, args: Seq<Seq<char>>)
    ensures
        (#[trigger] add_done(m, s, args)).m.cwd == m.cwd,
{
    broadcast use {lemma_add_within, lemma_working_tree};
}

broadcast proof fn lemma_changes_staged(m: Machine, s: Screen, root: Seq<char>)
    ensures
        (#[trigger] changes_staged(m, s, root)).m.cwd == m.cwd,
{
    broadcast use {lemma_staged_from, lemma_working_tree};
}

broadcast proof fn lemma_cleared(m: Machine, root: Seq<char>)
    ensures
        (#[trigger] cleared(m, root)).cwd == m.cwd,
{
}

broadcast proof fn lemma_head_updated(m: Machine, root: Seq<char>, id: Seq<char>, action: Seq<char>)
    ensures
        (#[trigger] head_updated(m, root, id, action)).0.cwd == m.cwd,
{
}

broadcast proof fn lemma_commit_stored_and_shown(
    m: Machine,
    s: Screen,
    root: Seq<char>,
    x: CommitWish,
    n: Note,
    tree: Files,
    base: Files,
)
    ensures
        (#[trigger] commit_stored_and_shown(m, s, root, x, n, tree, base)).m.cwd == m.cwd,
{
    broadcast use {lemma_cleared, lemma_head_updated};
}

broadcast proof fn lemma_commit_checked(
    m: Machine,
    s: Screen,
    root: Seq<char>,
    g: Overrides,
    x: CommitWish,
    paths: Seq<Seq<char>>,
)
    ensures
        (#[trigger] commit_checked(m, s, root, g, x, paths)).m.cwd == m.cwd,
{
    broadcast use lemma_commit_stored_and_shown;
}

broadcast proof fn lemma_commit_done(m: Machine, s: Screen, g: Overrides, args: Seq<Seq<char>>)
    ensures
        (#[trigger] commit_done(m, s, g, args)).m.cwd == m.cwd,
{
    broadcast use {lemma_add_done, lemma_changes_staged, lemma_commit_checked};
}

broadcast proof fn lemma_settings_stored(m: Machine, s: Screen, file: Seq<char>, c: Keys)
    ensures
        (#[trigger] settings_stored(m, s, file, c)).m.cwd == m.cwd,
{
}

broadcast proof fn lemma_config_done(m: Machine, s: Screen, g: Overrides, args: Seq<Seq<char>>)
    ensures
        (#[trigger] config_done(m, s, g, args)).m.cwd == m.cwd,
{
    broadcast use lemma_settings_stored;
}

broadcast proof fn lemma_pruned(m: Machine, root: Seq<char>, path: Seq<char>)
    ensures
        (#[trigger] pruned(m, root, path)).cwd == m.cwd,
    decreases path.len(),
{
    if let Some(d) = parent(path) {
        lemma_parent_shorter(path);
        if let Ok(f) = without_dir(m.files, d) {
            lemma_pruned(with_files(m, f), root, d);
        }
    }
}

broadcast proof fn lemma_all_pruned(m: Machine, root: Seq<char>, paths: Seq<Seq<char>>)
    ensures
        (#[trigger] all_pruned(m, root, paths)).cwd == m.cwd,
    decreases paths.len(),
{
    broadcast use lemma_pruned;

    if paths.len() > 0 {
        lemma_all_pruned(m, root, paths.drop_last());
    }
}

broadcast proof fn lemma_tree_written(
    m: Machine,
    root: Seq<char>,
    old_tree: Files,
    new_tree: Files,
    force: bool,
)
    ensures
        (#[trigger] tree_written(m, root, old_tree, new_tree, force)).0.cwd == m.cwd,
{
    broadcast use lemma_all_pruned;
}

broadcast proof fn lemma_trio_read(m: Machine, s: Screen, root: Seq<char>)
    ensures
        (#[trigger] trio_read(m, s, root)).0.cwd == m.cwd,
{
    broadcast use lemma_working_tree;
}

broadcast proof fn lemma_checked_out(m: Machine, s: Screen, root: Seq<char>, id: Seq<char>)
    ensures
        (#[trigger] checked_out(m, s, root, id)).m.cwd == m.cwd,
{
    broadcast use {lemma_tree_written, lemma_trio_read};
}

broadcast proof fn lemma_fast_forwarded(
    m: Machine,
    s: Screen,
    root: Seq<char>,
    target: Seq<char>,
    head: Seq<char>,
    other: Seq<char>,
)
    ensures
        (#[trigger] fast_forwarded(m, s, root, target, head, other)).m.cwd == m.cwd,
{
    broadcast use {lemma_checked_out, lemma_head_updated};
}

broadcast proof fn lemma_paused(m: Machine, s: Screen, root: Seq<char>, p: Pause, c: Conflicts)
    ensures
        (#[trigger] paused(m, s, root, p, c)).m.cwd == m.cwd,
{
}

broadcast proof fn lemma_path_mixed(
    m: Machine,
    root: Seq<char>,
    x: Mix,
    path: Seq<char>,
    v: Versions,
    labels: (Seq<char>, Seq<char>),
)
    ensures
        (#[trigger] path_mixed(m, root, x, path, v, labels)).0.cwd == m.cwd,
{
}

broadcast proof fn lemma_mixed_from(
    m: Machine,
    root: Seq<char>,
    x: Mix,
    names: Names,
    i: int,
    trees: (Files, Files, Files),
    labels: (Seq<char>, Seq<char>),
)
    ensures
        (#[trigger] mixed_from(m, root, x, names, i, trees, labels)).0.cwd == m.cwd,
    decreases names.len() - i,
{
    broadcast use lemma_path_mixed;

    if 0 <= i < names.len() {
        let path = names[i].0;
        let v = versions_at(trees.0, trees.1, trees.2, path);
        if let (n, Ok(y)) = path_mixed(m, root, x, path, v, labels) {
            lemma_mixed_from(n, root, y, names, i + 1, trees, labels);
        }
    }
}

broadcast proof fn lemma_mixed(
    m: Machine,
    root: Seq<char>,
    trees: (Files, Files, Files),
    labels: (Seq<char>, Seq<char>),
)
    ensures
        (#[trigger] mixed(m, root, trees, labels)).0.cwd == m.cwd,
{
    broadcast use lemma_mixed_from;
}

broadcast proof fn lemma_histories_merged(
    m: Machine,
    s: Screen,
    root: Seq<char>,
    g: Overrides,
    x: MergeWish,
    e: Ends,
    base: Option<Seq<char>>,
    incoming: Files,
)
    ensures
        (#[trigger] histories_merged(m, s, root, g, x, e, base, incoming)).m.cwd == m.cwd,
{
    broadcast use {lemma_head_updated, lemma_paused, lemma_tree_written, lemma_mixed};
}

broadcast proof fn lemma_merge_carried_out(
    m: Machine,
    s: Screen,
    root: Seq<char>,
    g: Overrides,
    x: MergeWish,
    e: Ends,
    incoming: Files,
)
    ensures
        (#[trigger] merge_carried_out(m, s, root, g, x, e, incoming)).m.cwd == m.cwd,
{
    broadcast use {lemma_fast_forwarded, lemma_histories_merged};
}

broadcast proof fn lemma_pending_aborted(m: Machine, s: Screen, root: Seq<char>, name: Seq<char>)
    ensures
        (#[trigger] pending_aborted(m, s, root, name)).m.cwd == m.cwd,
{
    broadcast use {lemma_cleared, lemma_tree_written};
}

broadcast proof fn lemma_pending_continued(
    m: Machine,
    s: Screen,
    root: Seq<char>,
    g: Overrides,
    name: Seq<char>,
)
    ensures
        (#[trigger] pending_continued(m, s, root, g, name)).m.cwd == m.cwd,
{
    broadcast use lemma_commit_done;
}

broadcast proof fn lemma_merge_done(m: Machine, s: Screen, g: Overrides, args: Seq<Seq<char>>)
    ensures
        (#[trigger] merge_done(m, s, g, args)).m.cwd == m.cwd,
{
    broadcast use {
        lemma_merge_carried_out, lemma_trio_read, lemma_pending_aborted, lemma_pending_continued,
    };
}

broadcast proof fn lemma_remote_done(m: Machine, s: Screen, g: Overrides, args: Seq<Seq<char>>)
    ensures
        (#[trigger] remote_done(m, s, g, args)).m.cwd == m.cwd,
{
    broadcast use lemma_settings_stored;
}

broadcast proof fn lemma_one_replayed(
    m: Machine,
    s: Screen,
    root: Seq<char>,
    g: Overrides,
    x: Run,
    rev: Seq<char>,
)
    ensures
        (#[trigger] one_replayed(m, s, root, g, x, rev)).m.cwd == m.cwd,
{
    broadcast use {
        lemma_mixed, lemma_paused, lemma_head_updated, lemma_tree_written, lemma_trio_read,
    };
}

broadcast proof fn lemma_run_carried_out(m: Machine, s: Screen, root: Seq<char>, g: Overrides, x: Run)
    ensures
        (#[trigger] run_carried_out(m, s, root, g, x)).m.cwd == m.cwd,
    decreases x.todo.len(),
{
    broadcast use lemma_one_replayed;

    if x.todo.len() > 0 {
        let rest = Run { todo: x.todo.skip(1), ..x };
        let d = one_replayed(m, s, root, g, rest, x.todo[0]);
        if d.status == 0 {
            lemma_run_carried_out(d.m, d.s, root, g, rest);
        }
    }
}

broadcast proof fn lemma_replay_started(
    m: Machine,
    s: Screen,
    root: Seq<char>,
    g: Overrides,
    x: ReplayAsk,
    v: Seq<Seq<char>>,
)
    ensures
        (#[trigger] replay_started(m, s, root, g, x, v)).m.cwd == m.cwd,
{
    broadcast use lemma_run_carried_out;
}

broadcast proof fn lemma_replay_done(
    m: Machine,
    s: Screen,
    g: Overrides,
    revert: bool,
    args: Seq<Seq<char>>,
)
    ensures
        (#[trigger] replay_done(m, s, g, revert, args)).m.cwd == m.cwd,
{
    broadcast use {
        lemma_pending_aborted, lemma_pending_continued, lemma_cleared, lemma_head_updated,
        lemma_tree_written, lemma_run_carried_out, lemma_replay_started,
    };
}

broadcast proof fn lemma_tags_deleted(
    m: Machine,
    s: Screen,
    root: Seq<char>,
    names: Seq<Seq<char>>,
    i: int,
)
    ensures
        (#[trigger] tags_deleted(m, s, root, names, i)).m.cwd == m.cwd,
    decreases names.len() - i,
{
    if 0 <= i < names.len() {
        let full = "refs/tags/"@ + names[i];
        let was = or_empty(reference_of(m, root, full));
        let t = printed(s, "Deleted tag '"@ + names[i] + "' (was "@ + short_id(was) + ")\n"@);
        if let (n, Ok(())) = reference_deleted(m, root, full) {
            lemma_tags_deleted(n, t, root, names, i + 1);
        }
    }
}

broadcast proof fn lemma_tags_listed(
    m: Machine,
    s: Screen,
    root: Seq<char>,
    x: TagWish,
    pattern: Option<Seq<char>>,
    target: Option<Seq<char>>,
    names: Seq<Seq<char>>,
    i: int,
)
    ensures
        (#[trigger] tags_listed(m, s, root, x, pattern, target, names, i)).m.cwd == m.cwd,
    decreases names.len() - i,
{
    if 0 <= i < names.len() {
        if let Ok(text) = tag_listed(m, root, x, pattern, target, names[i]) {
            lemma_tags_listed(m, printed(s, text), root, x, pattern, target, names, i + 1);
        }
    }
}

broadcast proof fn lemma_tag_done(m: Machine, s: Screen, g: Overrides, args: Seq<Seq<char>>)
    ensures
        (#[trigger] tag_done(m, s, g, args)).m.cwd == m.cwd,
{
    broadcast use {lemma_tags_deleted, lemma_tags_listed};
}

broadcast proof fn lemma_cleaned(
    m: Machine,
    s: Screen,
    root: Seq<char>,
    v: Seq<Seq<char>>,
    i: int,
    dry_run: bool,
)
    ensures
        (#[trigger] cleaned(m, s, root, v, i, dry_run)).m.cwd == m.cwd,
    decreases v.len() - i,
{
    if 0 <= i < v.len() {
        if dry_run {
            lemma_cleaned(m, printed(s, "Would remove "@ + v[i] + "\n"@), root, v, i + 1, dry_run);
        } else {
            let (n, r) = entry_removed(m, root, v[i]);
            let t = match r {
                Ok(()) => printed(s, "Removing "@ + v[i] + "\n"@),
                Err(_) => complained(s, "warning: failed to remove "@ + v[i] + "\n"@),
            };
            lemma_cleaned(n, t, root, v, i + 1, dry_run);
        }
    }
}

broadcast proof fn lemma_clean_done(m: Machine, s: Screen, args: Seq<Seq<char>>)
    ensures
        (#[trigger] clean_done(m, s, args)).m.cwd == m.cwd,
{
    broadcast use {lemma_cleaned, lemma_working_tree};
}

broadcast proof fn lemma_step_made(m: Machine, root: Seq<char>, index: Files, x: Step)
    ensures
        (#[trigger] step_made(m, root, index, x)).0.cwd == m.cwd,
{
    broadcast use lemma_pruned;
}

broadcast proof fn lemma_steps_made(m: Machine, root: Seq<char>, index: Files, steps: Seq<Step>, i: int)
    ensures
        (#[trigger] steps_made(m, root, index, steps, i)).0.cwd == m.cwd,
    decreases steps.len() - i,
{
    broadcast use lemma_step_made;

    if 0 <= i < steps.len() {
        if let (n, Ok(more)) = step_made(m, root, index, steps[i]) {
            lemma_steps_made(n, root, more, steps, i + 1);
        }
    }
}

broadcast proof fn lemma_mv_ended(m: Machine, s: Screen, root: Seq<char>, index: Files, steps: Seq<Step>)
    ensures
        (#[trigger] mv_ended(m, s, root, index, steps)).m.cwd == m.cwd,
{
    broadcast use lemma_steps_made;
}

broadcast proof fn lemma_mv_done(m: Machine, s: Screen, args: Seq<Seq<char>>)
    ensures
        (#[trigger] mv_done(m, s, args)).m.cwd == m.cwd,
{
    broadcast use lemma_mv_ended;
}

broadcast proof fn lemma_reset_whole(
    m: Machine,
    s: Screen,
    root: Seq<char>,
    mode: ResetMode,
    target: Seq<char>,
    id: Seq<char>,
    tree: Files,
)
    ensures
        (#[trigger] reset_whole(m, s, root, mode, target, id, tree)).m.cwd == m.cwd,
{
    broadcast use {lemma_cleared, lemma_tree_written, lemma_head_updated, lemma_working_tree};
}

broadcast proof fn lemma_restored(
    m: Machine,
    s: Screen,
    root: Seq<char>,
    source: Option<Seq<char>>,
    paths: Seq<Seq<char>>,
    staged: bool,
    worktree: bool,
)
    ensures
        (#[trigger] restored(m, s, root, source, paths, staged, worktree)).m.cwd == m.cwd,
{
    broadcast use {lemma_resolved_paths, lemma_tree_written, lemma_working_tree};
}

broadcast proof fn lemma_reset_done(m: Machine, s: Screen, args: Seq<Seq<char>>)
    ensures
        (#[trigger] reset_done(m, s, args)).m.cwd == m.cwd,
{
    broadcast use {lemma_reset_whole, lemma_restored};
}

broadcast proof fn lemma_sides_written(
    m: Machine,
    root: Seq<char>,
    v: Seq<(Seq<char>, Seq<char>)>,
    i: int,
)
    ensures
        (#[trigger] sides_written(m, root, v, i)).0.cwd == m.cwd,
    decreases v.len() - i,
{
    if 0 <= i < v.len() {
        if let Some(data) = blob_of(m, root, v[i].1) {
            lemma_sides_written(written(m, below(root, v[i].0), data).0, root, v, i + 1);
        }
    }
}

broadcast proof fn lemma_side_taken(
    m: Machine,
    s: Screen,
    root: Seq<char>,
    theirs: bool,
    named: Seq<Seq<char>>,
)
    ensures
        (#[trigger] side_taken(m, s, root, theirs, named)).m.cwd == m.cwd,
{
    broadcast use lemma_sides_written;
}

broadcast proof fn lemma_restore_done(m: Machine, s: Screen, args: Seq<Seq<char>>)
    ensures
        (#[trigger] restore_done(m, s, args)).m.cwd == m.cwd,
{
    broadcast use {lemma_restored, lemma_side_taken};
}

broadcast proof fn lemma_one_removed(m: Machine, root: Seq<char>, path: Seq<char>)
    ensures
        (#[trigger] one_removed(m, root, path)).0.cwd == m.cwd,
{
    broadcast use lemma_pruned;
}

broadcast proof fn lemma_all_removed(
    m: Machine,
    root: Seq<char>,
    index: Files,
    paths: Seq<Seq<char>>,
    i: int,
    cached: bool,
)
    ensures
        (#[trigger] all_removed(m, root, index, paths, i, cached)).0.cwd == m.cwd,
    decreases paths.len() - i,
{
    broadcast use lemma_one_removed;

    if 0 <= i < paths.len() {
        let n = if cached {
            m
        } else {
            one_removed(m, root, paths[i]).0
        };
        lemma_all_removed(n, root, unbind(index, paths[i]), paths, i + 1, cached);
    }
}

broadcast proof fn lemma_rm_ended(
    m: Machine,
    s: Screen,
    root: Seq<char>,
    asked: RmAsk,
    index: Files,
    paths: Seq<Seq<char>>,
)
    ensures
        (#[trigger] rm_ended(m, s, root, asked, index, paths)).m.cwd == m.cwd,
{
    broadcast use {lemma_all_removed, lemma_resolved_paths};
}

broadcast proof fn lemma_rm_checked(
    m: Machine,
    s: Screen,
    root: Seq<char>,
    asked: RmAsk,
    k: Knowledge,
    path: Seq<char>,
)
    ensures
        match #[trigger] rm_checked(m, s, root, asked, k, path) {
            Ok(n) => n.cwd == m.cwd,
            Err(d) => d.m.cwd == m.cwd,
        },
{
}

broadcast proof fn lemma_rm_all_checked(
    m: Machine,
    s: Screen,
    root: Seq<char>,
    asked: RmAsk,
    k: Knowledge,
    paths: Seq<Seq<char>>,
    i: int,
)
    ensures
        match #[trigger] rm_all_checked(m, s, root, asked, k, paths, i) {
            Ok(n) => n.cwd == m.cwd,
            Err(d) => d.m.cwd == m.cwd,
        },
    decreases paths.len() - i,
{
    broadcast use lemma_rm_checked;

    if 0 <= i < paths.len() {
        if let Ok(n) = rm_checked(m, s, root, asked, k, paths[i]) {
            lemma_rm_all_checked(n, s, root, asked, k, paths, i + 1);
        }
    }
}

broadcast proof fn lemma_rm_operand(
    m: Machine,
    s: Screen,
    root: Seq<char>,
    asked: RmAsk,
    k: Knowledge,
    operand: Seq<char>,
)
    ensures
        match #[trigger] rm_operand(m, s, root, asked, k, operand) {
            Ok(x) => x.0.cwd == m.cwd,
            Err(d) => d.m.cwd == m.cwd,
        },
{
    broadcast use lemma_rm_all_checked;
}

broadcast proof fn lemma_rm_operands(
    m: Machine,
    s: Screen,
    root: Seq<char>,
    asked: RmAsk,
    k: Knowledge,
    operands: Seq<Seq<char>>,
    i: int,
    head: Seq<Seq<char>>,
)
    ensures
        match #[trigger] rm_operands(m, s, root, asked, k, operands, i, head) {
            Ok(x) => x.0.cwd == m.cwd,
            Err(d) => d.m.cwd == m.cwd,
        },
    decreases operands.len() - i,
{
    broadcast use lemma_rm_operand;

    if 0 <= i < operands.len() {
        if let Ok((n, v)) = rm_operand(m, s, root, asked, k, operands[i]) {
            lemma_rm_operands(n, s, root, asked, k, operands, i + 1, head + v);
        }
    }
}

broadcast proof fn lemma_rm_done(m: Machine, s: Screen, args: Seq<Seq<char>>)
    ensures
        (#[trigger] rm_done(m, s, args)).m.cwd == m.cwd,
{
    broadcast use {lemma_rm_ended, lemma_rm_operands};
}

broadcast proof fn lemma_branch_deleted(
    m: Machine,
    s: Screen,
    root: Seq<char>,
    name: Seq<char>,
    force: bool,
)
    ensures
        (#[trigger] branch_deleted(m, s, root, name, force)).m.cwd == m.cwd,
{
}

broadcast proof fn lemma_branches_deleted(
    m: Machine,
    s: Screen,
    root: Seq<char>,
    names: Seq<Seq<char>>,
    i: int,
    force: bool,
)
    ensures
        (#[trigger] branches_deleted(m, s, root, names, i, force)).m.cwd == m.cwd,
    decreases names.len() - i,
{
    broadcast use lemma_branch_deleted;

    if 0 <= i < names.len() {
        let d = branch_deleted(m, s, root, names[i], force);
        lemma_branches_deleted(d.m, d.s, root, names, i + 1, force);
    }
}

broadcast proof fn lemma_formatted_from(
    m: Machine,
    s: Screen,
    root: Seq<char>,
    pattern: Option<Seq<char>>,
    format: Seq<char>,
    names: Seq<Seq<char>>,
    i: int,
)
    ensures
        (#[trigger] formatted_from(m, s, root, pattern, format, names, i)).m.cwd == m.cwd,
    decreases names.len() - i,
{
    if 0 <= i < names.len() {
        let full = "refs/heads/"@ + names[i];
        lemma_formatted_from(m, s, root, pattern, format, names, i + 1);
        if let Some(id) = reference_of(m, root, full) {
            if let Some(line) = ref_text(format, full, id) {
                lemma_formatted_from(m, printed(s, line + "\n"@), root, pattern, format, names, i + 1);
            }
        }
    }
}

broadcast proof fn lemma_branch_done(m: Machine, s: Screen, args: Seq<Seq<char>>)
    ensures
        (#[trigger] branch_done(m, s, args)).m.cwd == m.cwd,
{
    broadcast use {lemma_branches_deleted, lemma_formatted_from};
}

broadcast proof fn lemma_directories_made(m: Machine, v: Seq<Seq<char>>, i: int)
    ensures
        (#[trigger] directories_made(m, v, i)).0.cwd == m.cwd,
    decreases v.len() - i,
{
    if 0 <= i < v.len() {
        if let (n, Ok(())) = settled(m, with_parents(m.files, v[i] + "/."@)) {
            lemma_directories_made(n, v, i + 1);
        }
    }
}

broadcast proof fn lemma_init_done(m: Machine, s: Screen, args: Seq<Seq<char>>)
    ensures
        (#[trigger] init_done(m, s, args)).m.cwd == m.cwd,
{
    broadcast use lemma_directories_made;
}

broadcast proof fn lemma_contents_named(
    m: Machine,
    s: Screen,
    root: Option<Seq<char>>,
    write: bool,
    v: Seq<Seq<u8>>,
    i: int,
)
    ensures
        (#[trigger] contents_named(m, s, root, write, v, i)).m.cwd == m.cwd,
    decreases v.len() - i,
{
    if 0 <= i < v.len() {
        let named = printed(s, blob_id(v[i]) + "\n"@);
        lemma_contents_named(m, named, root, write, v, i + 1);
        if let Some(r) = root {
            lemma_contents_named(blob_stored(m, r, v[i]).0, named, root, write, v, i + 1);
        }
    }
}

broadcast proof fn lemma_hash_object_done(m: Machine, s: Screen, args: Seq<Seq<char>>)
    ensures
        (#[trigger] hash_object_done(m, s, args)).m.cwd == m.cwd,
{
    broadcast use lemma_contents_named;
}

broadcast proof fn lemma_switched_to(
    m: Machine,
    s: Screen,
    root: Seq<char>,
    branch: Seq<char>,
    announce: bool,
)
    ensures
        (#[trigger] switched_to(m, s, root, branch, announce)).m.cwd == m.cwd,
{
    broadcast use lemma_checked_out;
}

broadcast proof fn lemma_created_and_switched(
    m: Machine,
    s: Screen,
    root: Seq<char>,
    branch: Seq<char>,
    start: Option<Seq<char>>,
    force: bool,
)
    ensures
        (#[trigger] created_and_switched(m, s, root, branch, start, force)).m.cwd == m.cwd,
{
    broadcast use {lemma_branch_done, lemma_switched_to};
}

broadcast proof fn lemma_switched_away(m: Machine, s: Screen, root: Seq<char>, rev: Seq<char>)
    ensures
        (#[trigger] switched_away(m, s, root, rev)).m.cwd == m.cwd,
{
    broadcast use lemma_checked_out;
}

broadcast proof fn lemma_checkout_done(m: Machine, s: Screen, args: Seq<Seq<char>>)
    ensures
        (#[trigger] checkout_done(m, s, args)).m.cwd == m.cwd,
{
    broadcast use {
        lemma_created_and_switched, lemma_restore_done, lemma_side_taken, lemma_switched_away,
        lemma_switched_to,
    };
}

broadcast proof fn lemma_laid_down(m: Machine, s: Screen, root: Seq<char>, id: Seq<char>)
    ensures
        (#[trigger] laid_down(m, s, root, id)).m.cwd == m.cwd,
{
    broadcast use {lemma_tree_written, lemma_trio_read};
}

broadcast proof fn lemma_rebase_aborted(m: Machine, s: Screen, root: Seq<char>)
    ensures
        (#[trigger] rebase_aborted(m, s, root)).m.cwd == m.cwd,
{
    broadcast use {lemma_laid_down, lemma_cleared};
}

broadcast proof fn lemma_one_rebased(m: Machine, s: Screen, root: Seq<char>, x: Rebase)
    ensures
        (#[trigger] one_rebased(m, s, root, x)).m.cwd == m.cwd,
{
    broadcast use {lemma_mixed, lemma_head_updated, lemma_tree_written};
}

broadcast proof fn lemma_all_rebased(m: Machine, s: Screen, root: Seq<char>, x: Rebase)
    ensures
        (#[trigger] all_rebased(m, s, root, x)).m.cwd == m.cwd,
    decreases x.todo.len(),
{
    broadcast use {lemma_one_rebased, lemma_cleared};

    if x.todo.len() > 0 {
        let d = one_rebased(m, s, root, x);
        let rest = Rebase { todo: x.todo.skip(1), ..x };
        lemma_all_rebased(rebase_stored(d.m, root, rest).0, d.s, root, rest);
    }
}

broadcast proof fn lemma_stored_and_rebased(m: Machine, s: Screen, root: Seq<char>, x: Rebase)
    ensures
        (#[trigger] stored_and_rebased(m, s, root, x)).m.cwd == m.cwd,
{
    broadcast use lemma_all_rebased;
}

broadcast proof fn lemma_rebase_resumed(m: Machine, s: Screen, root: Seq<char>)
    ensures
        (#[trigger] rebase_resumed(m, s, root)).m.cwd == m.cwd,
{
    broadcast use {lemma_cleared, lemma_head_updated, lemma_stored_and_rebased};
}

broadcast proof fn lemma_rebase_skipped(m: Machine, s: Screen, root: Seq<char>)
    ensures
        (#[trigger] rebase_skipped(m, s, root)).m.cwd == m.cwd,
{
    broadcast use {lemma_cleared, lemma_laid_down, lemma_stored_and_rebased};
}

broadcast proof fn lemma_rebase_acted(m: Machine, s: Screen, root: Seq<char>, option: Seq<char>)
    ensures
        (#[trigger] rebase_acted(m, s, root, option)).m.cwd == m.cwd,
{
    broadcast use {lemma_rebase_aborted, lemma_rebase_resumed, lemma_rebase_skipped};
}

broadcast proof fn lemma_replay_begun(
    m: Machine,
    s: Screen,
    root: Seq<char>,
    w: Route,
    branch: Seq<char>,
    head: Seq<char>,
    todo: Seq<Seq<char>>,
)
    ensures
        (#[trigger] replay_begun(m, s, root, w, branch, head, todo)).m.cwd == m.cwd,
{
    broadcast use {lemma_head_updated, lemma_laid_down, lemma_stored_and_rebased};
}

broadcast proof fn lemma_rebase_carried_out(
    m: Machine,
    s: Screen,
    root: Seq<char>,
    w: Route,
    branch: Option<Seq<char>>,
)
    ensures
        (#[trigger] rebase_carried_out(m, s, root, w, branch)).m.cwd == m.cwd,
{
    broadcast use {lemma_replay_begun, lemma_switched_to, lemma_trio_read};
}

broadcast proof fn lemma_rebase_done(m: Machine, s: Screen, args: Seq<Seq<char>>)
    ensures
        (#[trigger] rebase_done(m, s, args)).m.cwd == m.cwd,
{
    broadcast use {lemma_rebase_acted, lemma_rebase_carried_out};
}

broadcast proof fn lemma_stash_dropped(m: Machine, s: Screen, root: Seq<char>, position: nat)
    ensures
        (#[trigger] stash_dropped(m, s, root, position)).m.cwd == m.cwd,
{
}

broadcast proof fn lemma_stash_restored(m: Machine, s: Screen, root: Seq<char>, work: Files, index: Files)
    ensures
        (#[trigger] stash_restored(m, s, root, work, index)).m.cwd == m.cwd,
{
    broadcast use {lemma_working_tree, lemma_tree_written};
}

broadcast proof fn lemma_stash_applied(
    m: Machine,
    s: Screen,
    root: Seq<char>,
    position: nat,
    drop_after: bool,
)
    ensures
        (#[trigger] stash_applied(m, s, root, position, drop_after)).m.cwd == m.cwd,
{
    broadcast use {lemma_stash_dropped, lemma_stash_restored};
}

broadcast proof fn lemma_contents_saved(m: Machine, root: Seq<char>, paths: Seq<Seq<char>>, i: int)
    ensures
        (#[trigger] contents_saved(m, root, paths, i)).0.cwd == m.cwd,
    decreases paths.len() - i,
{
    if 0 <= i < paths.len() {
        lemma_contents_saved(m, root, paths, i + 1);
        if let Some(data) = work_content(m, root, paths[i]) {
            lemma_contents_saved(blob_stored(m, root, data).0, root, paths, i + 1);
        }
    }
}

broadcast proof fn lemma_entry_saved(
    m: Machine,
    s: Screen,
    root: Seq<char>,
    given: Option<Seq<char>>,
    base: Seq<char>,
    t: Trio,
)
    ensures
        (#[trigger] entry_saved(m, s, root, given, base, t)).m.cwd == m.cwd,
{
    broadcast use lemma_tree_written;
}

broadcast proof fn lemma_stash_pushed(
    m: Machine,
    s: Screen,
    root: Seq<char>,
    given: Option<Seq<char>>,
    include_untracked: bool,
)
    ensures
        (#[trigger] stash_pushed(m, s, root, given, include_untracked)).m.cwd == m.cwd,
{
    broadcast use {lemma_contents_saved, lemma_entry_saved, lemma_working_tree};
}

broadcast proof fn lemma_stash_acted(
    m: Machine,
    s: Screen,
    root: Seq<char>,
    x: StashWish,
    command: Seq<char>,
)
    ensures
        (#[trigger] stash_acted(m, s, root, x, command)).m.cwd == m.cwd,
{
    broadcast use {lemma_stash_applied, lemma_stash_dropped, lemma_stash_pushed};
}

broadcast proof fn lemma_stash_done(m: Machine, s: Screen, args: Seq<Seq<char>>)
    ensures
        (#[trigger] stash_done(m, s, args)).m.cwd == m.cwd,
{
    broadcast use lemma_stash_acted;
}

broadcast proof fn lemma_switch_done(m: Machine, s: Screen, args: Seq<Seq<char>>)
    ensures
        (#[trigger] switch_done(m, s, args)).m.cwd == m.cwd,
{
    broadcast use {lemma_created_and_switched, lemma_switched_away, lemma_switched_to};
}

broadcast proof fn lemma_symbolic_ref_done(m: Machine, s: Screen, args: Seq<Seq<char>>)
    ensures
        (#[trigger] symbolic_ref_done(m, s, args)).m.cwd == m.cwd,
{
}

// ---------------------------------------------------------------------------
// All commands
// ---------------------------------------------------------------------------

#[verifier::spinoff_prover]
#[verifier::rlimit(60)]
proof fn lemma_files_command(m: Machine, s: Screen, name: Seq<char>, args: Seq<Seq<char>>)
    ensures
        files_command(m, s, name, args) matches Some(d) ==> d.m.cwd == m.cwd,
{
    broadcast use {
        lemma_add_done, lemma_clean_done, lemma_mv_done, lemma_reset_done, lemma_restore_done,
        lemma_rm_done,
    };

    lemma_status_only_reads(m, s, args);
    lemma_ls_files_only_reads(m, s, args);
}

#[verifier::spinoff_prover]
#[verifier::rlimit(60)]
proof fn lemma_history_command(m: Machine, s: Screen, name: Seq<char>, args: Seq<Seq<char>>)
    ensures
        history_command(m, s, name, args) matches Some(d) ==> d.m.cwd == m.cwd,
{
    broadcast use lemma_branch_done;

    lemma_diff_only_reads(m, s, args);
    lemma_log_only_reads(m, s, args);
    lemma_show_only_reads(m, s, args);
    lemma_rev_parse_only_reads(m, s, args);
    lemma_rev_list_only_reads(m, s, args);
}

#[verifier::spinoff_prover]
#[verifier::rlimit(60)]
proof fn lemma_movement_command(m: Machine, s: Screen, name: Seq<char>, args: Seq<Seq<char>>)
    ensures
        movement_command(m, s, name, args) matches Some(d) ==> d.m.cwd == m.cwd,
{
    broadcast use {lemma_checkout_done, lemma_rebase_done, lemma_stash_done, lemma_switch_done};
}

#[verifier::spinoff_prover]
#[verifier::rlimit(60)]
proof fn lemma_authored_command(m: Machine, s: Screen, g: Overrides, name: Seq<char>, args: Seq<Seq<char>>)
    ensures
        authored_command(m, s, g, name, args) matches Some(d) ==> d.m.cwd == m.cwd,
{
    broadcast use {
        lemma_commit_done, lemma_config_done, lemma_merge_done, lemma_remote_done, lemma_replay_done,
        lemma_tag_done,
    };
}

#[verifier::spinoff_prover]
#[verifier::rlimit(60)]
proof fn lemma_inspection_command(m: Machine, s: Screen, name: Seq<char>, args: Seq<Seq<char>>)
    ensures
        inspection_command(m, s, name, args) matches Some(d) ==> d.m.cwd == m.cwd,
{
    broadcast use lemma_hash_object_done;

    lemma_search_only_reads(m, s, args);
    lemma_cat_file_only_reads(m, s, args);
    lemma_ls_tree_only_reads(m, s, args);
    lemma_check_ignore_only_reads(m, s, args);
    lemma_merge_base_only_reads(m, s, args);
}

#[verifier::spinoff_prover]
#[verifier::rlimit(60)]
proof fn lemma_report_command(m: Machine, s: Screen, name: Seq<char>, args: Seq<Seq<char>>)
    ensures
        report_command(m, s, name, args) matches Some(d) ==> d.m.cwd == m.cwd,
{
    broadcast use lemma_symbolic_ref_done;

    lemma_describe_only_reads(m, s, args);
    lemma_shortlog_only_reads(m, s, args);
    lemma_show_ref_only_reads(m, s, args);
    lemma_for_each_ref_only_reads(m, s, args);
}

#[verifier::spinoff_prover]
#[verifier::rlimit(60)]
proof fn lemma_command_run(m: Machine, s: Screen, g: Overrides, name: Seq<char>, args: Seq<Seq<char>>)
    ensures
        command_run(m, s, g, name, args).0.cwd == m.cwd,
{
    broadcast use {lemma_init_done, lemma_working_tree};

    lemma_files_command(m, s, name, args);
    lemma_history_command(m, s, name, args);
    lemma_movement_command(m, s, name, args);
    lemma_authored_command(m, s, g, name, args);
    lemma_inspection_command(m, s, name, args);
    lemma_report_command(m, s, name, args);
}

/// No subcommand leaves the working directory, whatever it is asked and however it ends.
pub proof fn lemma_directory_stays(m: Machine, s: Screen, g: Overrides, name: Seq<char>, args: Seq<Seq<char>>)
    ensures
        dispatched(m, s, g, name, args).0.cwd == m.cwd,
{
    let (command, all) = unaliased(m, g, name, args, alias_bound(m, g));
    lemma_command_run(m, s, g, command, all);
}

/// `git` comes back to the directory that it was called in, also where `-C` sent it elsewhere, if that
/// directory is still there. Where files are still to be patched, it hands that directory out to go
/// back to, or has never left it. Without `-C` it never leaves.
pub proof fn lemma_git_comes_back(m: Machine, s: Screen, args: Seq<Seq<char>>)
    ensures
        ({
            let (n, t, c, left) = git_run(m, s, args);
            &&& c is Ended ==> left is None && (n.cwd == m.cwd || !dir_at(n.files, m.cwd))
            &&& c is Patching ==> left == Some(m.cwd) || (left is None && n.cwd == m.cwd)
            &&& begun(pass_for(args, ""@, "Cc"@), m.cwd, seq![], None) matches Begin::Run {
                directory: None,
                ..
            } ==> n.cwd == m.cwd
        }),
{
    if let Begin::Run { g, directory, rest } = begun(pass_for(args, ""@, "Cc"@), m.cwd, seq![], None) {
        if rest.len() > 0 {
            let start = match directory {
                Some(d) => Machine { cwd: d, ..m },
                None => m,
            };
            lemma_directory_stays(start, s, g, rest[0], rest.subrange(1, rest.len() as int));
        }
    }
}

} // verus!
