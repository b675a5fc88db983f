use shellsim::applying::{read_staged, store_patched, Errand, Patched};
use shellsim::console::Io;
use shellsim::git::{cmd_git, reads_standard_input, Ran};
use shellsim::names::same_tree;
use shellsim::repo::{
    current_branch, head_commit, head_tree, load_commit, load_index, previous_branch, read_head_log,
};
use shellsim::stages::{clear, in_progress, load_stages, pending_message, resolve};
use shellsim::system::System;
use shellsim::worktree::collect_working_tree;

struct Said {
    status: i32,
    out: String,
    err: String,
}

fn words(args: &[&str]) -> Vec<String> {
    args.iter().map(|value| (*value).to_string()).collect()
}

fn feed(system: &mut System, args: &[&str], stdin: &str) -> Said {
    let mut io = Io::new();
    io.stdin = stdin.as_bytes().to_vec();
    let (ran, _) = cmd_git(system, &words(args), &mut io);
    let status = match ran {
        Ran::Ended(status) => status,
        Ran::Patching(_) => -1,
    };
    Said {
        status,
        out: String::from_utf8(io.out).unwrap(),
        err: String::from_utf8(io.err).unwrap(),
    }
}

fn git(system: &mut System, args: &[&str]) -> Said {
    feed(system, args, "")
}

fn ok(system: &mut System, args: &[&str]) -> String {
    let said = git(system, args);
    assert_eq!(said.status, 0, "git {args:?}\n{}{}", said.out, said.err);
    said.out
}

fn put(system: &mut System, path: &str, text: &str) {
    assert!(system.put_file_with_parents(path, text.as_bytes().to_vec(), 0o644).is_ok());
}

fn text(system: &System, path: &str) -> Option<String> {
    system.read_file(path).map(|bytes| String::from_utf8(bytes).unwrap())
}

fn repository() -> System {
    let mut system = System::new();
    system.set_clock(1_700_000_000_000);
    assert!(system.mkdir_all("/work").is_ok());
    assert!(system.chdir("/work"));
    assert_eq!(ok(&mut system, &["init"]), "Initialized empty Git repository in /work/.git/\n");
    ok(&mut system, &["config", "user.name", "Ada"]);
    ok(&mut system, &["config", "user.email", "ada@example.com"]);
    system
}

fn commit(system: &mut System, path: &str, content: &str, message: &str) -> String {
    put(system, &format!("/work/{path}"), content);
    ok(system, &["add", path]);
    ok(system, &["commit", "-m", message]);
    head_commit(system, "/work").unwrap()
}

#[test]
fn a_commit_holds_the_index_and_its_parent() {
    let mut system = repository();
    let first = commit(&mut system, "a.txt", "one\n", "first");
    let second = commit(&mut system, "b.txt", "two\n", "second");
    assert_ne!(first, second);
    assert!(same_tree(&head_tree(&system, "/work"), &load_index(&system, "/work").unwrap()));
    let record = load_commit(&system, "/work", &second).unwrap();
    assert_eq!(record.parents, vec![first]);
    assert_eq!(record.message, "second");
    assert_eq!(record.author_name, "Ada");
    assert_eq!(record.timestamp, 1_700_000_000);
    assert_eq!(current_branch(&system, "/work").as_deref(), Some("main"));
    let moves = read_head_log(&system, "/work");
    assert_eq!(moves.len(), 2);
    // The newest move comes first.
    assert_eq!(moves[0].after, second);
    assert_eq!(moves[0].action, "commit: second");
}

#[test]
fn the_report_of_a_commit() {
    let mut system = repository();
    put(&mut system, "/work/a.txt", "one\n");
    ok(&mut system, &["add", "a.txt"]);
    let said = ok(&mut system, &["commit", "-m", "first"]);
    let id = head_commit(&system, "/work").unwrap();
    assert_eq!(
        said,
        format!(
            "[main (root-commit) {}] first\n 1 file changed, 1 insertion(+)\n create mode 100644 a.txt\n",
            &id[..7]
        )
    );
}

#[test]
fn a_commit_needs_something_to_record() {
    let mut system = repository();
    commit(&mut system, "a.txt", "one\n", "first");
    let said = git(&mut system, &["commit", "-m", "again"]);
    assert_eq!(said.status, 1);
    assert!(said.out.contains("nothing to commit"), "{}", said.out);
    assert_eq!(git(&mut system, &["commit", "-m", "empty", "--allow-empty"]).status, 0);
    let said = git(&mut system, &["commit", "-m", ""]);
    assert_eq!(said.status, 129, "{}", said.err);
}

#[test]
fn amending_replaces_the_last_commit() {
    let mut system = repository();
    let first = commit(&mut system, "a.txt", "one\n", "first");
    let second = commit(&mut system, "a.txt", "two\n", "second");
    ok(&mut system, &["commit", "--amend", "-m", "better"]);
    let id = head_commit(&system, "/work").unwrap();
    assert_ne!(id, second);
    let record = load_commit(&system, "/work", &id).unwrap();
    assert_eq!(record.parents, vec![first]);
    assert_eq!(record.message, "better");
}

#[test]
fn status_sorts_paths_into_staged_changed_and_untracked() {
    let mut system = repository();
    commit(&mut system, "a.txt", "one\n", "first");
    put(&mut system, "/work/a.txt", "two\n");
    put(&mut system, "/work/new.txt", "new\n");
    put(&mut system, "/work/staged.txt", "s\n");
    ok(&mut system, &["add", "staged.txt"]);
    assert_eq!(ok(&mut system, &["status", "--short"]), " M a.txt\nA  staged.txt\n?? new.txt\n");
    let long = ok(&mut system, &["status"]);
    assert!(long.starts_with("On branch main\n"), "{long}");
    assert!(long.contains("Changes to be committed:"), "{long}");
    assert!(long.contains("Changes not staged for commit:"), "{long}");
    assert!(long.contains("Untracked files:"), "{long}");
}

#[test]
fn log_lists_the_newest_commit_first() {
    let mut system = repository();
    let first = commit(&mut system, "a.txt", "one\n", "first");
    system.set_clock(1_700_000_100_000);
    let second = commit(&mut system, "a.txt", "two\n", "second");
    assert_eq!(
        ok(&mut system, &["log", "--oneline"]),
        format!("{} second\n{} first\n", &second[..7], &first[..7])
    );
    assert_eq!(ok(&mut system, &["log", "-1", "--format=%H %an %s"]), format!("{second} Ada second\n"));
    assert_eq!(
        ok(&mut system, &["log", "-1"]),
        format!("commit {second}\nAuthor: Ada <ada@example.com>\nDate:   Tue Nov 14 22:15:00 2023 +0000\n\n    second\n")
    );
}

#[test]
fn show_prints_a_commit_with_its_patch() {
    let mut system = repository();
    commit(&mut system, "a.txt", "one\n", "first");
    commit(&mut system, "a.txt", "two\n", "second");
    let shown = ok(&mut system, &["show", "HEAD"]);
    assert!(shown.contains("-one\n+two\n"), "{shown}");
    assert_eq!(ok(&mut system, &["show", "HEAD~1:a.txt"]), "one\n");
}

#[test]
fn diff_compares_the_index_with_the_work_tree() {
    let mut system = repository();
    commit(&mut system, "a.txt", "one\n", "first");
    assert_eq!(ok(&mut system, &["diff"]), "");
    put(&mut system, "/work/a.txt", "two\n");
    let patch = ok(&mut system, &["diff"]);
    assert!(patch.contains("-one\n+two\n"), "{patch}");
    assert_eq!(ok(&mut system, &["diff", "--cached"]), "");
    assert_eq!(ok(&mut system, &["diff", "--name-only"]), "a.txt\n");
    assert_eq!(git(&mut system, &["diff", "--quiet"]).status, 1);
}

#[test]
fn a_merge_without_other_work_is_a_fast_forward() {
    let mut system = repository();
    commit(&mut system, "a.txt", "one\n", "first");
    ok(&mut system, &["switch", "-c", "side"]);
    let side = commit(&mut system, "b.txt", "two\n", "second");
    ok(&mut system, &["switch", "main"]);
    assert_eq!(text(&system, "/work/b.txt"), None);
    let said = ok(&mut system, &["merge", "side"]);
    assert!(said.contains("Fast-forward"), "{said}");
    assert_eq!(head_commit(&system, "/work"), Some(side));
    assert_eq!(text(&system, "/work/b.txt").as_deref(), Some("two\n"));
    assert_eq!(ok(&mut system, &["merge", "side"]), "Already up to date.\n");
}

fn diverged() -> System {
    let mut system = repository();
    commit(&mut system, "a.txt", "one\n", "first");
    ok(&mut system, &["switch", "-c", "side"]);
    commit(&mut system, "b.txt", "side\n", "on side");
    ok(&mut system, &["switch", "main"]);
    commit(&mut system, "c.txt", "main\n", "on main");
    system
}

#[test]
fn a_merge_joins_both_lines_of_history() {
    let mut system = diverged();
    let main = head_commit(&system, "/work").unwrap();
    let said = ok(&mut system, &["merge", "side", "-m", "join"]);
    assert!(said.contains("Merge made by the 'ort' strategy.\n"), "{said}");
    let id = head_commit(&system, "/work").unwrap();
    let record = load_commit(&system, "/work", &id).unwrap();
    assert_eq!(record.parents.len(), 2);
    assert_eq!(record.parents[0], main);
    assert_eq!(text(&system, "/work/b.txt").as_deref(), Some("side\n"));
    assert_eq!(text(&system, "/work/c.txt").as_deref(), Some("main\n"));
    let order = ok(&mut system, &["log", "--format=%s"]);
    assert!(order.starts_with("join\n"), "{order}");
    assert!(order.ends_with("first\n"), "{order}");
}

fn conflicting() -> System {
    let mut system = repository();
    commit(&mut system, "a.txt", "one\n", "first");
    ok(&mut system, &["switch", "-c", "side"]);
    commit(&mut system, "a.txt", "side\n", "on side");
    ok(&mut system, &["switch", "main"]);
    commit(&mut system, "a.txt", "main\n", "on main");
    system
}

#[test]
fn competing_changes_stop_a_merge_until_they_are_resolved() {
    let mut system = conflicting();
    let said = git(&mut system, &["merge", "side"]);
    assert_eq!(said.status, 1);
    assert_eq!(
        text(&system, "/work/a.txt").as_deref(),
        Some("<<<<<<< HEAD\nmain\n=======\nside\n>>>>>>> side\n")
    );
    assert_eq!(ok(&mut system, &["status", "--short"]), "UU a.txt\n");
    let refused = git(&mut system, &["commit", "-m", "too early"]);
    assert_eq!(refused.status, 1);
    assert!(refused.err.contains("unmerged files"), "{}", refused.err);
    put(&mut system, "/work/a.txt", "both\n");
    ok(&mut system, &["add", "a.txt"]);
    ok(&mut system, &["commit", "-m", "resolved"]);
    let id = head_commit(&system, "/work").unwrap();
    assert_eq!(load_commit(&system, "/work", &id).unwrap().parents.len(), 2);
}

#[test]
fn a_merge_that_stopped_can_be_given_up() {
    let mut system = conflicting();
    let main = head_commit(&system, "/work").unwrap();
    assert_eq!(git(&mut system, &["merge", "side"]).status, 1);
    ok(&mut system, &["merge", "--abort"]);
    assert_eq!(text(&system, "/work/a.txt").as_deref(), Some("main\n"));
    assert_eq!(head_commit(&system, "/work"), Some(main));
    assert_eq!(ok(&mut system, &["status", "--short"]), "");
}

#[test]
fn branches_are_made_listed_renamed_and_deleted() {
    let mut system = repository();
    commit(&mut system, "a.txt", "one\n", "first");
    ok(&mut system, &["branch", "topic"]);
    assert_eq!(ok(&mut system, &["branch"]), "* main\n  topic\n");
    ok(&mut system, &["branch", "-m", "topic", "work"]);
    assert_eq!(ok(&mut system, &["branch"]), "* main\n  work\n");
    let said = ok(&mut system, &["branch", "-d", "work"]);
    assert!(said.starts_with("Deleted branch work"), "{said}");
    assert_eq!(ok(&mut system, &["branch", "--show-current"]), "main\n");
}

#[test]
fn the_current_and_the_unmerged_branch_stay() {
    let mut system = diverged();
    assert_eq!(git(&mut system, &["branch", "-d", "main"]).status, 1);
    let said = git(&mut system, &["branch", "-d", "side"]);
    assert_eq!(said.status, 1);
    assert!(said.err.contains("not fully merged"), "{}", said.err);
    ok(&mut system, &["branch", "-D", "side"]);
}

#[test]
fn switching_is_refused_where_it_would_lose_work() {
    let mut system = conflicting();
    put(&mut system, "/work/a.txt", "unsaved\n");
    let said = git(&mut system, &["switch", "side"]);
    assert_eq!(said.status, 1);
    assert_eq!(text(&system, "/work/a.txt").as_deref(), Some("unsaved\n"));
    assert_eq!(current_branch(&system, "/work").as_deref(), Some("main"));
    let again = git(&mut system, &["switch", "main"]);
    assert_eq!(again.status, 0);
    assert_eq!(again.err, "Already on 'main'\n");
}

#[test]
fn checkout_detaches_head() {
    let mut system = repository();
    let first = commit(&mut system, "a.txt", "one\n", "first");
    commit(&mut system, "a.txt", "two\n", "second");
    ok(&mut system, &["checkout", &first]);
    assert_eq!(current_branch(&system, "/work"), None);
    assert_eq!(text(&system, "/work/a.txt").as_deref(), Some("one\n"));
    ok(&mut system, &["checkout", "main"]);
    assert_eq!(text(&system, "/work/a.txt").as_deref(), Some("two\n"));
}

#[test]
fn a_rebase_replays_work_on_another_base() {
    let mut system = diverged();
    ok(&mut system, &["switch", "side"]);
    ok(&mut system, &["rebase", "main"]);
    assert_eq!(ok(&mut system, &["log", "--format=%s"]), "on side\non main\nfirst\n");
    assert_eq!(current_branch(&system, "/work").as_deref(), Some("side"));
    assert_eq!(text(&system, "/work/b.txt").as_deref(), Some("side\n"));
}

#[test]
fn a_rebase_that_stops_resumes_or_is_given_up() {
    let mut system = conflicting();
    ok(&mut system, &["switch", "side"]);
    assert_eq!(git(&mut system, &["rebase", "main"]).status, 1);
    ok(&mut system, &["rebase", "--abort"]);
    assert_eq!(text(&system, "/work/a.txt").as_deref(), Some("side\n"));
    assert_eq!(git(&mut system, &["rebase", "main"]).status, 1);
    put(&mut system, "/work/a.txt", "both\n");
    ok(&mut system, &["add", "a.txt"]);
    ok(&mut system, &["rebase", "--continue"]);
    assert_eq!(ok(&mut system, &["log", "--format=%s"]), "on side\non main\nfirst\n");
    assert_eq!(current_branch(&system, "/work").as_deref(), Some("side"));
}

#[test]
fn a_cherry_pick_copies_one_commit() {
    let mut system = diverged();
    ok(&mut system, &["cherry-pick", "side"]);
    assert_eq!(ok(&mut system, &["log", "--format=%s"]), "on side\non main\nfirst\n");
    assert_eq!(text(&system, "/work/b.txt").as_deref(), Some("side\n"));
}

#[test]
fn a_revert_undoes_one_commit() {
    let mut system = repository();
    commit(&mut system, "a.txt", "one\n", "first");
    commit(&mut system, "a.txt", "two\n", "second");
    ok(&mut system, &["revert", "HEAD"]);
    assert_eq!(text(&system, "/work/a.txt").as_deref(), Some("one\n"));
    assert_eq!(ok(&mut system, &["log", "-1", "--format=%s"]), "Revert \"second\"\n");
}

#[test]
fn a_stash_keeps_work_and_gives_it_back() {
    let mut system = repository();
    commit(&mut system, "a.txt", "one\n", "first");
    put(&mut system, "/work/a.txt", "two\n");
    ok(&mut system, &["stash"]);
    assert_eq!(text(&system, "/work/a.txt").as_deref(), Some("one\n"));
    let listed = ok(&mut system, &["stash", "list"]);
    assert!(listed.starts_with("stash@{0}: WIP on main: "), "{listed}");
    ok(&mut system, &["stash", "pop"]);
    assert_eq!(text(&system, "/work/a.txt").as_deref(), Some("two\n"));
    assert_eq!(ok(&mut system, &["stash", "list"]), "");
    assert_eq!(git(&mut system, &["stash", "pop"]).status, 128);
}

#[test]
fn tags_name_commits() {
    let mut system = repository();
    let first = commit(&mut system, "a.txt", "one\n", "first");
    ok(&mut system, &["tag", "v1"]);
    ok(&mut system, &["tag", "-a", "v2", "-m", "release"]);
    assert_eq!(ok(&mut system, &["tag"]), "v1\nv2\n");
    assert_eq!(ok(&mut system, &["rev-parse", "v1"]), format!("{first}\n"));
    assert_eq!(git(&mut system, &["tag", "v1"]).status, 128);
    ok(&mut system, &["tag", "-d", "v1"]);
    assert_eq!(ok(&mut system, &["tag"]), "v2\n");
}

#[test]
fn describe_counts_from_the_nearest_tag() {
    let mut system = repository();
    commit(&mut system, "a.txt", "one\n", "first");
    ok(&mut system, &["tag", "v1"]);
    let second = commit(&mut system, "a.txt", "two\n", "second");
    assert_eq!(ok(&mut system, &["describe", "--tags"]), format!("v1-1-g{}\n", &second[..7]));
    assert_eq!(ok(&mut system, &["describe", "--tags", "v1"]), "v1\n");
}

#[test]
fn reset_moves_the_branch_and_restores_files() {
    let mut system = repository();
    let first = commit(&mut system, "a.txt", "one\n", "first");
    commit(&mut system, "a.txt", "two\n", "second");
    ok(&mut system, &["reset", "--soft", "HEAD~1"]);
    assert_eq!(head_commit(&system, "/work"), Some(first));
    assert_eq!(ok(&mut system, &["status", "--short"]), "M  a.txt\n");
    ok(&mut system, &["reset", "--hard", "HEAD"]);
    assert_eq!(text(&system, "/work/a.txt").as_deref(), Some("one\n"));
}

#[test]
fn restore_brings_a_file_back() {
    let mut system = repository();
    commit(&mut system, "a.txt", "one\n", "first");
    put(&mut system, "/work/a.txt", "two\n");
    ok(&mut system, &["restore", "a.txt"]);
    assert_eq!(text(&system, "/work/a.txt").as_deref(), Some("one\n"));
    put(&mut system, "/work/a.txt", "two\n");
    ok(&mut system, &["add", "a.txt"]);
    ok(&mut system, &["restore", "--staged", "a.txt"]);
    assert_eq!(ok(&mut system, &["status", "--short"]), " M a.txt\n");
}

#[test]
fn files_are_removed_and_moved_all_or_none() {
    let mut system = repository();
    commit(&mut system, "a.txt", "one\n", "first");
    commit(&mut system, "b.txt", "two\n", "second");
    assert_eq!(git(&mut system, &["rm", "a.txt", "missing"]).status, 128);
    assert!(system.path_exists("/work/a.txt"));
    ok(&mut system, &["rm", "a.txt"]);
    assert!(!system.path_exists("/work/a.txt"));
    ok(&mut system, &["mv", "b.txt", "c.txt"]);
    assert!(!system.path_exists("/work/b.txt"));
    assert_eq!(text(&system, "/work/c.txt").as_deref(), Some("two\n"));
    assert_eq!(git(&mut system, &["mv", "missing", "d.txt"]).status, 128);
}

#[test]
fn clean_removes_what_is_not_tracked() {
    let mut system = repository();
    commit(&mut system, "a.txt", "one\n", "first");
    put(&mut system, "/work/junk", "x");
    assert_eq!(ok(&mut system, &["clean", "-n"]), "Would remove junk\n");
    assert!(system.path_exists("/work/junk"));
    assert_eq!(ok(&mut system, &["clean", "-f"]), "Removing junk\n");
    assert!(!system.path_exists("/work/junk"));
}

#[test]
fn ignored_files_stay_out() {
    let mut system = repository();
    put(&mut system, "/work/.gitignore", "*.log\n");
    put(&mut system, "/work/a.log", "x");
    ok(&mut system, &["add", "."]);
    assert_eq!(ok(&mut system, &["ls-files"]), ".gitignore\n");
    assert_eq!(ok(&mut system, &["check-ignore", "a.log", "b.txt"]), "a.log\n");
    assert_eq!(git(&mut system, &["check-ignore", "b.txt"]).status, 1);
}

#[test]
fn settings_are_written_and_read() {
    let mut system = repository();
    assert_eq!(ok(&mut system, &["config", "user.name"]), "Ada\n");
    assert_eq!(ok(&mut system, &["-c", "user.name=Bob", "config", "user.name"]), "Bob\n");
    ok(&mut system, &["config", "--unset", "user.name"]);
    assert_eq!(git(&mut system, &["config", "user.name"]).status, 1);
    ok(&mut system, &["config", "alias.st", "status --short"]);
    put(&mut system, "/work/x", "x");
    assert_eq!(ok(&mut system, &["st"]), "?? x\n");
}

#[test]
fn the_environment_says_who_commits() {
    let mut system = repository();
    system.set_variable("GIT_AUTHOR_NAME", "Grace");
    commit(&mut system, "a.txt", "one\n", "first");
    assert_eq!(ok(&mut system, &["log", "-1", "--format=%an"]), "Grace\n");
}

#[test]
fn objects_are_looked_into() {
    let mut system = repository();
    let id = commit(&mut system, "dir/a.txt", "hello\n", "first");
    put(&mut system, "/work/dir/a.txt", "hello\n");
    assert_eq!(
        ok(&mut system, &["hash-object", "dir/a.txt"]),
        "ce013625030ba8dba906f756967f9e9ca394464a\n"
    );
    assert_eq!(
        ok(&mut system, &["cat-file", "-p", "ce013625030ba8dba906f756967f9e9ca394464a"]),
        "hello\n"
    );
    assert_eq!(ok(&mut system, &["cat-file", "-t", &id]), "commit\n");
    assert_eq!(ok(&mut system, &["cat-file", "-s", "HEAD:dir/a.txt"]), "6\n");
    assert_eq!(
        ok(&mut system, &["ls-tree", "-r", "HEAD"]),
        "100644 blob ce013625030ba8dba906f756967f9e9ca394464a\tdir/a.txt\n"
    );
    let top = ok(&mut system, &["ls-tree", "HEAD"]);
    assert!(top.starts_with("040000 tree "), "{top}");
    assert_eq!(feed(&mut system, &["hash-object", "--stdin"], "hello\n").out, "ce013625030ba8dba906f756967f9e9ca394464a\n");
}

#[test]
fn revisions_are_named_in_many_ways() {
    let mut system = diverged();
    let main = head_commit(&system, "/work").unwrap();
    assert_eq!(ok(&mut system, &["rev-parse", "HEAD", "main", "@"]), format!("{main}\n{main}\n{main}\n"));
    assert_eq!(ok(&mut system, &["rev-parse", &main[..8]]), format!("{main}\n"));
    assert_eq!(ok(&mut system, &["rev-parse", "--abbrev-ref", "HEAD"]), "main\n");
    assert_eq!(ok(&mut system, &["rev-parse", "HEAD~1"]), ok(&mut system, &["merge-base", "main", "side"]));
    assert_eq!(ok(&mut system, &["rev-list", "--count", "side..main"]), "1\n");
    assert_eq!(ok(&mut system, &["rev-list", "--count", "--all"]), "3\n");
    assert_eq!(git(&mut system, &["rev-parse", "--verify", "nowhere"]).status, 128);
}

#[test]
fn references_are_listed() {
    let mut system = repository();
    let id = commit(&mut system, "a.txt", "one\n", "first");
    ok(&mut system, &["tag", "v1"]);
    assert_eq!(ok(&mut system, &["show-ref"]), format!("{id} refs/heads/main\n{id} refs/tags/v1\n"));
    assert_eq!(
        ok(&mut system, &["for-each-ref", "--format=%(refname:short)"]),
        "main\nv1\n"
    );
    assert_eq!(ok(&mut system, &["symbolic-ref", "HEAD"]), "refs/heads/main\n");
    assert_eq!(ok(&mut system, &["shortlog", "-s"]), "     1\tAda\n");
}

#[test]
fn grep_searches_tracked_files() {
    let mut system = repository();
    commit(&mut system, "a.txt", "alpha\nbeta\n", "first");
    put(&mut system, "/work/untracked", "alpha\n");
    assert_eq!(ok(&mut system, &["grep", "alpha"]), "a.txt:alpha\n");
    assert_eq!(ok(&mut system, &["grep", "-n", "b.ta"]), "a.txt:2:beta\n");
    assert_eq!(ok(&mut system, &["grep", "-c", "a$"]), "a.txt:2\n");
    let none = git(&mut system, &["grep", "-l", "-F", "b.ta"]);
    assert_eq!((none.status, none.out.as_str()), (1, ""));
}

#[test]
fn remotes_are_only_settings() {
    let mut system = repository();
    ok(&mut system, &["remote", "add", "origin", "https://example.com/r.git"]);
    assert_eq!(ok(&mut system, &["remote"]), "origin\n");
    assert_eq!(ok(&mut system, &["remote", "get-url", "origin"]), "https://example.com/r.git\n");
}

#[test]
fn what_needs_a_network_is_refused() {
    let mut system = repository();
    let said = git(&mut system, &["fetch", "origin"]);
    assert_ne!(said.status, 0);
    assert!(said.err.contains("needs network access"), "{}", said.err);
    let said = git(&mut system, &["frobnicate"]);
    assert_eq!(said.status, 1);
    assert!(said.err.contains("is not a git command"), "{}", said.err);
}

#[test]
fn silence_keeps_output_back() {
    let mut system = repository();
    put(&mut system, "/work/a.txt", "one\n");
    ok(&mut system, &["add", "a.txt"]);
    let said = git(&mut system, &["commit", "-q", "-m", "first"]);
    assert_eq!((said.status, said.out.as_str(), said.err.as_str()), (0, "", ""));
}

#[test]
fn outside_a_repository_commands_complain() {
    let mut system = System::new();
    let said = git(&mut system, &["status"]);
    assert_eq!(said.status, 128);
    assert!(said.err.starts_with("fatal: not a git repository"), "{}", said.err);
    assert_eq!(ok(&mut system, &["--version"]), "git version 2.45.0 (shellsim)\n");
    assert_eq!(git(&mut system, &["-C", "/nowhere", "status"]).status, 128);
}

#[test]
fn a_command_can_run_in_another_directory() {
    let mut system = repository();
    commit(&mut system, "a.txt", "one\n", "first");
    assert!(system.chdir("/"));
    assert_eq!(ok(&mut system, &["-C", "/work", "branch", "--show-current"]), "main\n");
    assert_eq!(system.cwd(), "/");
}

#[test]
fn a_full_disk_stops_a_commit() {
    let mut system = repository();
    commit(&mut system, "a.txt", "one\n", "first");
    let before = head_commit(&system, "/work");
    put(&mut system, "/work/b.txt", "two\n");
    ok(&mut system, &["add", "b.txt"]);
    let used = system.disk_used();
    let mut system = system.with_budgets(1_000_000, 1_000_000, used);
    let said = git(&mut system, &["commit", "-m", "second"]);
    assert_ne!(said.status, 0);
    assert_eq!(head_commit(&system, "/work"), before);
}

#[test]
fn apply_hands_the_patching_over() {
    let mut system = repository();
    commit(&mut system, "a.txt", "one\n", "first");
    let patch = "--- a/a.txt\n+++ b/a.txt\n@@ -1 +1 @@\n-one\n+two\n";
    put(&mut system, "/work/p.diff", patch);
    let mut io = Io::new();
    let (ran, _) = cmd_git(&mut system, &words(&["apply", "--cached", "p.diff"]), &mut io);
    let Ran::Patching(Errand::Index { root, text, strip, index, known }) = ran else {
        panic!("nothing to patch");
    };
    assert_eq!((root.as_str(), text.as_str(), strip), ("/work", patch, 1));
    assert_eq!(read_staged(&system, &root, &known, "/work/a.txt"), Ok(b"one\n".to_vec()));
    let patched = vec![Patched { path: "/work/a.txt".to_string(), content: Some(b"two\n".to_vec()) }];
    assert_eq!(store_patched(&mut system, &root, index, &patched, &mut io), 0);
    assert_eq!(ok(&mut system, &["show", ":a.txt"]), "two\n");
    assert_eq!(text_of(&system), "one\n");
    assert_eq!(ok(&mut system, &["apply", "--numstat", "p.diff"]), "1\t1\ta.txt\n");
}

fn text_of(system: &System) -> String {
    text(system, "/work/a.txt").unwrap()
}

#[test]
fn reading_commands_change_no_file() {
    let mut system = diverged();
    let before = (system.file_count(), system.disk_used());
    for args in [
        vec!["status"],
        vec!["diff", "HEAD~1"],
        vec!["log", "--graph", "--oneline", "--all"],
        vec!["show"],
        vec!["rev-parse", "HEAD"],
        vec!["rev-list", "HEAD"],
        vec!["ls-files"],
        vec!["ls-tree", "HEAD"],
        vec!["merge-base", "main", "side"],
        vec!["shortlog", "-s"],
        vec!["show-ref"],
        vec!["for-each-ref"],
        vec!["grep", "main"],
    ] {
        ok(&mut system, &args);
        assert_eq!((system.file_count(), system.disk_used()), before, "{args:?}");
    }
}

#[test]
fn switching_replaces_a_file_by_a_directory() {
    let mut system = repository();
    commit(&mut system, "x", "x\n", "first");
    ok(&mut system, &["switch", "-c", "side"]);
    commit(&mut system, "a/b", "inner\n", "second");
    ok(&mut system, &["switch", "main"]);
    assert!(!system.path_exists("/work/a"));
    commit(&mut system, "a", "file\n", "third");
    ok(&mut system, &["switch", "side"]);
    assert_eq!(text(&system, "/work/a/b").as_deref(), Some("inner\n"));
    assert_eq!(ok(&mut system, &["status", "--short"]), "");
    // A file does not take the place of a directory, and then nothing is changed.
    let said = git(&mut system, &["switch", "main"]);
    assert_eq!(said.status, 1);
    assert_eq!(said.err, "git switch: /work/a: Is a directory\n");
    assert_eq!(text(&system, "/work/a/b").as_deref(), Some("inner\n"));
    assert_eq!(current_branch(&system, "/work").as_deref(), Some("side"));
}

#[test]
fn clean_spares_tracked_files() {
    let mut system = repository();
    commit(&mut system, "src/a.txt", "one\n", "first");
    put(&mut system, "/work/src/junk", "x");
    put(&mut system, "/work/out/deep/junk", "x");
    assert_eq!(ok(&mut system, &["clean", "-f"]), "Removing src/junk\n");
    assert!(system.path_exists("/work/out/deep/junk"));
    assert_eq!(ok(&mut system, &["clean", "-fd"]), "Removing out/\n");
    assert!(!system.path_exists("/work/out"));
    assert_eq!(text(&system, "/work/src/a.txt").as_deref(), Some("one\n"));
    assert_eq!(ok(&mut system, &["status", "--short"]), "");
}

#[test]
fn a_reset_of_paths_rewrites_their_entries_alone() {
    let mut system = repository();
    commit(&mut system, "a.txt", "a1\n", "first");
    let head = commit(&mut system, "b.txt", "b1\n", "second");
    put(&mut system, "/work/a.txt", "a2\n");
    put(&mut system, "/work/b.txt", "b2\n");
    ok(&mut system, &["add", "."]);
    ok(&mut system, &["reset", "HEAD", "--", "a.txt"]);
    assert_eq!(ok(&mut system, &["show", ":a.txt"]), "a1\n");
    assert_eq!(ok(&mut system, &["show", ":b.txt"]), "b2\n");
    assert_eq!(text(&system, "/work/a.txt").as_deref(), Some("a2\n"));
    assert_eq!(text(&system, "/work/b.txt").as_deref(), Some("b2\n"));
    assert_eq!(head_commit(&system, "/work"), Some(head));
}

#[test]
fn a_dry_run_stages_nothing() {
    let mut system = repository();
    commit(&mut system, "a.txt", "one\n", "first");
    put(&mut system, "/work/b.txt", "two\n");
    let files = (system.file_count(), system.disk_used());
    assert_eq!(ok(&mut system, &["add", "-n", "b.txt"]), "add 'b.txt'\n");
    assert_eq!((system.file_count(), system.disk_used()), files);
    assert_eq!(ok(&mut system, &["status", "--short"]), "?? b.txt\n");
}

#[test]
fn settling_one_conflict_leaves_the_other() {
    let mut system = repository();
    put(&mut system, "/work/b.txt", "one\n");
    ok(&mut system, &["add", "b.txt"]);
    commit(&mut system, "a.txt", "one\n", "first");
    ok(&mut system, &["switch", "-c", "side"]);
    put(&mut system, "/work/b.txt", "side\n");
    ok(&mut system, &["add", "b.txt"]);
    commit(&mut system, "a.txt", "side\n", "on side");
    ok(&mut system, &["switch", "main"]);
    put(&mut system, "/work/b.txt", "main\n");
    ok(&mut system, &["add", "b.txt"]);
    commit(&mut system, "a.txt", "main\n", "on main");
    assert_eq!(git(&mut system, &["merge", "side"]).status, 1);
    assert_eq!(ok(&mut system, &["status", "--short"]), "UU a.txt\nUU b.txt\n");
    let theirs = load_stages(&system, "/work").get("b.txt").unwrap().theirs.clone();
    resolve(&mut system, "/work", &words(&["a.txt"]));
    let stages = load_stages(&system, "/work");
    assert!(stages.get("a.txt").is_none());
    assert_eq!(stages.get("b.txt").unwrap().theirs, theirs);
    assert!(in_progress(&system, "/work", "MERGE_HEAD").is_some());
    clear(&mut system, "/work");
    assert_eq!(load_stages(&system, "/work").len(), 0);
    assert_eq!(in_progress(&system, "/work", "MERGE_HEAD"), None);
    assert_eq!(in_progress(&system, "/work", "CHERRY_PICK_HEAD"), None);
    assert_eq!(in_progress(&system, "/work", "REVERT_HEAD"), None);
    assert_eq!(pending_message(&system, "/work"), None);
}

#[test]
fn diff_never_reports_untracked_files() {
    let mut system = repository();
    commit(&mut system, "a.txt", "one\n", "first");
    put(&mut system, "/work/b.txt", "two\n");
    assert_eq!(ok(&mut system, &["diff", "--name-only"]), "");
    put(&mut system, "/work/a.txt", "1\n");
    assert_eq!(ok(&mut system, &["diff", "--name-only"]), "a.txt\n");
    assert_eq!(ok(&mut system, &["diff", "--name-only", "HEAD"]), "a.txt\n");
}

#[test]
fn the_branch_that_was_left_is_remembered() {
    let mut system = repository();
    commit(&mut system, "a.txt", "one\n", "first");
    ok(&mut system, &["branch", "side"]);
    ok(&mut system, &["switch", "side"]);
    assert_eq!(previous_branch(&system, "/work").as_deref(), Some("main"));
    ok(&mut system, &["switch", "-"]);
    assert_eq!(current_branch(&system, "/work").as_deref(), Some("main"));
}

#[test]
fn reading_the_work_tree_gives_its_memory_back() {
    let mut system = repository();
    commit(&mut system, "a.txt", "one\n", "first");
    let mark = system.memory_mark();
    assert_eq!(collect_working_tree(&mut system, "/work").map(|tree| tree.len()).ok(), Some(1));
    assert_eq!(system.memory_mark(), mark);
}

#[test]
fn a_patch_keeps_the_recorded_mode() {
    let mut system = repository();
    assert!(system.put_file_with_parents("/work/run", b"one\n".to_vec(), 0o755).is_ok());
    ok(&mut system, &["add", "run"]);
    let index = load_index(&system, "/work").unwrap();
    assert_eq!(index.get("run").unwrap().mode(), "100755");
    let patched = vec![
        Patched { path: "run".to_string(), content: Some(b"two\n".to_vec()) },
        Patched { path: "new".to_string(), content: Some(b"new\n".to_vec()) },
    ];
    assert_eq!(store_patched(&mut system, "/work", index, &patched, &mut Io::new()), 0);
    let index = load_index(&system, "/work").unwrap();
    assert_eq!(index.get("run").unwrap().mode(), "100755");
    assert_eq!(index.get("new").unwrap().mode(), "100644");
    assert_eq!(ok(&mut system, &["show", ":run"]), "two\n");
    assert_eq!(text(&system, "/work/run").as_deref(), Some("one\n"));
}

#[test]
fn few_subcommands_read_standard_input() {
    for args in [
        vec!["commit", "-F", "-"],
        vec!["commit", "--file", "-"],
        vec!["commit", "-a", "--file=-"],
        vec!["hash-object", "--stdin"],
        vec!["check-ignore", "--stdin"],
        vec!["apply"],
        vec!["apply", "--cached"],
        vec!["-C", "/work", "commit", "-F", "-"],
        // This may be an alias.
        vec!["ci", "-F", "-"],
    ] {
        assert!(reads_standard_input(&words(&args)), "{args:?}");
    }
    for args in [
        vec![],
        vec!["apply", "x.patch"],
        vec!["status"],
        vec!["log", "--stdin"],
        vec!["commit", "-m", "-"],
        vec!["tag", "-F", "-"],
        vec!["--version"],
    ] {
        assert!(!reads_standard_input(&words(&args)), "{args:?}");
    }
}

#[test]
fn a_long_chain_of_aliases_is_followed() {
    let mut system = repository();
    commit(&mut system, "a.txt", "one\n", "first");
    for i in 0..99 {
        ok(&mut system, &["config", &format!("alias.a{i}"), &format!("a{}", i + 1)]);
    }
    ok(&mut system, &["config", "alias.a99", "log --format=%s"]);
    assert_eq!(ok(&mut system, &["a0"]), "first\n");
    ok(&mut system, &["config", "alias.a99", "a0"]);
    assert_eq!(git(&mut system, &["a0"]).status, 1);
}

#[test]
fn a_reversed_log_keeps_the_same_commits() {
    let mut system = repository();
    for name in ["one", "two", "three", "four"] {
        commit(&mut system, "a.txt", &format!("{name}\n"), name);
    }
    let newest = ok(&mut system, &["log", "--format=%H", "-n", "3"]);
    let turned = ok(&mut system, &["log", "--format=%H", "-n", "3", "--reverse"]);
    let mut lines: Vec<&str> = newest.lines().collect();
    assert_eq!(lines.len(), 3);
    lines.reverse();
    assert_eq!(turned.lines().collect::<Vec<&str>>(), lines);
    assert_eq!(ok(&mut system, &["log", "--format=%s", "-n", "2", "--reverse"]), "three\nfour\n");
}

#[test]
fn a_commit_counts_the_lines_of_binary_files() {
    let mut system = repository();
    put(&mut system, "/work/b", "x\0y\nz\n");
    ok(&mut system, &["add", "b"]);
    let said = ok(&mut system, &["commit", "-m", "first"]);
    assert!(
        said.ends_with(" 1 file changed, 2 insertions(+)\n create mode 100644 b\n"),
        "{said}"
    );
}

#[test]
fn status_shows_paths_from_the_working_directory() {
    let mut system = repository();
    commit(&mut system, "a/b/x", "one\n", "first");
    put(&mut system, "/work/a/c", "two\n");
    put(&mut system, "/work/top", "three\n");
    assert!(system.chdir("/work/a/b"));
    put(&mut system, "/work/a/b/x", "1\n");
    let said = ok(&mut system, &["status", "--short"]);
    assert_eq!(said, " M x\n?? ../c\n?? ../../top\n");
}

#[test]
fn a_rename_needs_the_same_content_only() {
    let mut system = repository();
    commit(&mut system, "old", "one\n", "first");
    ok(&mut system, &["rm", "old"]);
    assert!(system.put_file_with_parents("/work/new", b"one\n".to_vec(), 0o755).is_ok());
    ok(&mut system, &["add", "new"]);
    assert_eq!(ok(&mut system, &["status", "--short"]), "R  old -> new\n");
}

#[test]
fn no_command_leaves_the_working_directory() {
    let mut system = repository();
    commit(&mut system, "sub/a.txt", "one\n", "first");
    assert!(system.chdir("/"));
    for args in [
        vec!["-C", "work", "status"],
        vec!["-C", "/work", "-C", "sub", "log"],
        vec!["-C", "work", "switch", "-c", "side"],
        vec!["-C", "work", "no-such-command"],
        vec!["-C", "missing", "status"],
        vec!["-C", "work", "stash"],
        vec!["-C", "work", "checkout", "main"],
        vec!["init", "other"],
    ] {
        git(&mut system, &args);
        assert_eq!(system.cwd(), "/", "{args:?}");
    }
}
