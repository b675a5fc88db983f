use shellsim::applying::{describe, patch_counts, reverse_patch};
use shellsim::combine::combine;
use shellsim::compare::{scale_graph, split_range, summary_line};
use shellsim::dates::{days_from_civil, format_date, parse_date, relative_date, stamp, Style};
use shellsim::digests::{cksum, md5, sha256, sha512};
use shellsim::encoding::{base64_decode, base64_encode};
use shellsim::graph::Rail;
use shellsim::hashes::{encode_hex, sha1_hex};
use shellsim::history::{merge_base, reachable_history};
use shellsim::numbers::{format_i64, format_u64, padded_left, parse_i64, parse_u64};
use shellsim::objects::{blob_hash, short};
use shellsim::order::{less, sort_texts, OrdMap};
use shellsim::patterns::basic_to_extended;
use shellsim::pretty::{expand_format_checked, format_is_supported};
use shellsim::progress::{load_rebase, store_rebase, State};
use shellsim::records::Commit;
use shellsim::references::valid_reference_name;
use shellsim::repo::{
    commit_tree, load_commit, load_index, read_annotation, read_blob, read_reference, store_commit, store_index,
    write_annotation, write_blob, write_reference,
};
use shellsim::searching::{report_file, Style as GrepStyle};
use shellsim::stages::{begin, clear, in_progress, load_stages, pending_message, store_stages, Stages, Unmerged};
use shellsim::status::displayed_path;
use shellsim::system::{basename, parent_of, path_join, resolve_against, FileError, System};
use shellsim::trees::{parse_tree, serialize_tree, Entry, Tree};

fn words(args: &[&str]) -> Vec<String> {
    args.iter().map(|value| (*value).to_string()).collect()
}

fn record(parents: &[&str], timestamp: i64, message: &str) -> Commit {
    Commit {
        parents: words(parents),
        author_name: "Ada".to_string(),
        author_email: "ada@example.com".to_string(),
        timestamp,
        message: message.to_string(),
    }
}

fn file(hash: &str) -> Entry {
    Entry { hash: hash.to_string(), executable: false, symlink: false }
}

fn tree(entries: &[(&str, &str)]) -> Tree {
    let mut t: Tree = OrdMap::new();
    for (path, hash) in entries {
        t.insert((*path).to_string(), file(hash));
    }
    t
}

#[test]
fn numbers_are_written_and_read() {
    for n in [0u64, 7, 10, 12345, u64::MAX] {
        assert_eq!(parse_u64(&format_u64(n)), Some(n));
    }
    for n in [0i64, -1, i64::MIN, i64::MAX] {
        assert_eq!(parse_i64(&format_i64(n)), Some(n));
    }
    assert_eq!(format_i64(-42), "-42");
    assert_eq!(parse_u64("18446744073709551616"), None);
    assert_eq!(parse_u64("x"), None);
    assert_eq!(padded_left("7", ' ', 3), "  7");
}

#[test]
fn digests_of_nothing() {
    assert_eq!(sha1_hex(b""), "da39a3ee5e6b4b0d3255bfef95601890afd80709");
    assert_eq!(encode_hex(&md5(b"")), "d41d8cd98f00b204e9800998ecf8427e");
    assert_eq!(
        encode_hex(&sha256(b"")),
        "e3b0c44298fc1c149afbf4c8996fb92427ae41e4649b934ca495991b7852b855"
    );
    assert_eq!(encode_hex(&sha512(b""))[..16], *"cf83e1357eefb8bd");
    assert_eq!(cksum(b"123456789"), 930766865);
}

#[test]
fn digests_of_more_than_one_block() {
    let text = b"abcdbcdecdefdefgefghfghighijhijkijkljklmklmnlmnomnopnopq";
    assert_eq!(sha1_hex(text), "84983e441c3bd26ebaae4aa1f95129e5e54670f1");
    assert_eq!(
        encode_hex(&sha256(text)),
        "248d6a61d20638b8e5c026930c3e6039a33ce45964ff2167f6ecedd419db06c1"
    );
}

#[test]
fn every_byte_survives_base64() {
    let all: Vec<u8> = (0..=255u8).collect();
    for n in 0..6 {
        assert_eq!(base64_decode(&base64_encode(&all[..n])), Some(all[..n].to_vec()));
    }
    assert_eq!(base64_decode(&base64_encode(&all)), Some(all));
    assert_eq!(base64_encode(b"Ma"), "TWE=");
    assert_eq!(base64_decode("*"), None);
}

#[test]
fn days_are_counted_from_the_epoch() {
    assert_eq!(days_from_civil(1970, 1, 1), 0);
    assert_eq!(days_from_civil(2000, 3, 1), 11017);
    assert_eq!(days_from_civil(1969, 12, 31), -1);
}

#[test]
fn moments_are_written() {
    assert_eq!(format_date(0), "Thu Jan 1 00:00:00 1970 +0000");
    assert_eq!(stamp(1_700_000_000, Style::Iso), "2023-11-14 22:13:20 +0000");
    assert_eq!(stamp(1_700_000_000, Style::IsoStrict), "2023-11-14T22:13:20+00:00");
    assert_eq!(stamp(-1, Style::Short), "1969-12-31");
}

#[test]
fn ages_are_written() {
    assert_eq!(relative_date(0, 59), "59 seconds ago");
    assert_eq!(relative_date(0, 60), "1 minute ago");
    assert_eq!(relative_date(0, 120), "2 minutes ago");
    assert_eq!(relative_date(0, 3 * 86_400), "3 days ago");
}

#[test]
fn moments_are_read() {
    assert_eq!(parse_date("2023-11-14", 0), Some(1_699_920_000));
    assert_eq!(parse_date("1700000000", 0), Some(1_700_000_000));
    assert_eq!(parse_date("nonsense", 0), None);
    assert_eq!(parse_date("3 days ago", 1_000_000), Some(740_800));
    assert_eq!(parse_date("1 week ago", 1_000_000), Some(395_200));
    assert_eq!(parse_date("3 days", 1_000_000), None);
    assert_eq!(parse_date("3 days ago ago", 1_000_000), None);
    assert_eq!(parse_date("3 fortnights ago", 1_000_000), None);
    assert_eq!(parse_date("1970-01-02 00:00:01", 1_000_000), Some(86_401));
    assert_eq!(parse_date("1970-01-02T00:01Z", 1_000_000), Some(86_460));
    assert_eq!(parse_date("1970-01-02 00:00:01:00", 1_000_000), None);
    assert_eq!(parse_date("42", 1_000_000), Some(42));
    assert_eq!(parse_date("2024-13-01", 1_000_000), None);
}

#[test]
fn maps_keep_their_keys_in_order() {
    let mut map: OrdMap<String> = OrdMap::new();
    for key in ["b", "a", "c", "a"] {
        map.insert(key.to_string(), format!("{key}!"));
    }
    assert_eq!(map.len(), 3);
    assert_eq!((map.key_at(0), map.key_at(1), map.key_at(2)), ("a", "b", "c"));
    assert_eq!(map.get("b").map(String::as_str), Some("b!"));
    map.remove("b");
    assert_eq!(map.get("b"), None);
    assert_eq!(sort_texts(words(&["b", "a", "ab"])), words(&["a", "ab", "b"]));
    assert!(less("a", "ab") && !less("b", "a") && !less("a", "a"));
}

#[test]
fn paths_are_resolved() {
    assert_eq!(resolve_against("/a/b", "../c/./d"), "/a/c/d");
    assert_eq!(resolve_against("/a", "/x//y"), "/x/y");
    assert_eq!(resolve_against("/", "../.."), "/");
    assert_eq!(path_join("/", "x"), "/x");
    assert_eq!(path_join("/a", "x"), "/a/x");
    assert_eq!(parent_of("/a/b").as_deref(), Some("/a"));
    assert_eq!(parent_of("/").as_deref(), None);
    assert_eq!(basename("/a/b"), "b");
}

#[test]
fn files_are_refused_with_a_reason() {
    let mut system = System::new();
    assert!(system.put_file_with_parents("/a", b"x".to_vec(), 0o644).is_ok());
    assert!(matches!(system.unlink("/missing"), Err(FileError::NotFound(_))));
    assert!(matches!(system.put_file_with_parents("/a/b", Vec::new(), 0o644), Err(FileError::NotADirectory(_))));
    assert!(system.mkdir_all("/d").is_ok());
    assert!(matches!(system.unlink("/d"), Err(FileError::IsADirectory(_))));
    assert!(system.put_file_with_parents("/d/f", Vec::new(), 0o644).is_ok());
    assert!(matches!(system.rmdir("/d"), Err(FileError::NotEmpty(_))));
    let error = system.unlink("/missing").unwrap_err();
    assert_eq!(error.message(), "/missing: No such file or directory");
}

#[test]
fn budgets_run_out() {
    let mut system = System::new().with_budgets(10, 10, 10);
    assert!(system.charge_cpu(10));
    assert!(!system.charge_cpu(1));
    assert!(system.reserve_memory(10));
    assert!(!system.reserve_memory(1));
    system.release_memory(5);
    assert!(system.reserve_memory(5));
    assert!(system.put_file_with_parents("/big", vec![0; 1000], 0o644).is_err());
    assert!(!system.path_exists("/big"));
}

#[test]
fn what_is_stored_is_read_back() {
    let mut system = System::new();
    let hash = write_blob(&mut system, "/r", b"hello\n").unwrap();
    assert_eq!(hash, "ce013625030ba8dba906f756967f9e9ca394464a");
    assert_eq!(read_blob(&system, "/r", &hash), Some(b"hello\n".to_vec()));
    let t = tree(&[("a", &hash), ("b/c", &hash)]);
    assert!(store_index(&mut system, "/r", &t).is_ok());
    let back = load_index(&system, "/r").unwrap();
    assert!(shellsim::names::same_tree(&back, &t));
    let n = record(&["1234"], 17, "subject\n\nbody");
    let id = store_commit(&mut system, "/r", &n, &t).unwrap();
    assert_eq!(id.len(), 40);
    let read = load_commit(&system, "/r", &id).unwrap();
    assert_eq!((read.parents, read.timestamp, read.message), (n.parents, 17, n.message));
    assert!(shellsim::names::same_tree(&commit_tree(&system, "/r", &id).unwrap(), &t));
    assert!(write_reference(&mut system, "/r", "refs/heads/x", &id).is_ok());
    assert_eq!(read_reference(&system, "/r", "refs/heads/x"), Some(id));
    assert!(write_annotation(&mut system, "/r", "v1", &record(&[], 3, "note")).is_ok());
    assert_eq!(read_annotation(&system, "/r", "v1").unwrap().message, "note");
}

#[test]
fn trees_and_records_survive_their_text() {
    let t = tree(&[("a", &"0f".repeat(20)), ("z/y", &"ab".repeat(20))]);
    let back = parse_tree(&serialize_tree(&t)).unwrap();
    assert!(shellsim::names::same_tree(&back, &t));
    assert!(parse_tree(b"garbage").is_none());
    let n = record(&["p1", "p2"], -5, "first line\nsecond");
    let read = Commit::parse(&n.serialize()).unwrap();
    assert_eq!(read.subject(), "first line");
    assert_eq!(read.parents, words(&["p1", "p2"]));
    assert_eq!(read.timestamp, -5);
    assert!(Commit::parse(b"nonsense").is_none());
}

#[test]
fn modes_of_entries() {
    assert_eq!(file("x").mode(), "100644");
    assert_eq!(Entry { hash: String::new(), executable: true, symlink: false }.mode(), "100755");
    assert_eq!(Entry { hash: String::new(), executable: false, symlink: true }.mode(), "120000");
}

#[test]
fn history_lists_children_before_parents() {
    let mut system = System::new();
    let empty: Tree = OrdMap::new();
    let a = store_commit(&mut system, "/r", &record(&[], 100, "a"), &empty).unwrap();
    let b = store_commit(&mut system, "/r", &record(&[&a], 50, "b"), &empty).unwrap();
    let c = store_commit(&mut system, "/r", &record(&[&a], 60, "c"), &empty).unwrap();
    let d = store_commit(&mut system, "/r", &record(&[&b, &c], 10, "d"), &empty).unwrap();
    let order: Vec<String> =
        reachable_history(&system, "/r", &[d.clone()], 100).into_iter().map(|(id, _)| id).collect();
    // The clock of `a` runs ahead of all the others, and it still comes last.
    assert_eq!(order, vec![d, c.clone(), b.clone(), a.clone()]);
    assert_eq!(merge_base(&system, "/r", &b, &c), Some(a));
}

#[test]
fn history_lists_what_is_reached_and_nothing_else() {
    let mut system = System::new();
    let empty: Tree = OrdMap::new();
    let a = store_commit(&mut system, "/r", &record(&[], 10, "a"), &empty).unwrap();
    let b = store_commit(&mut system, "/r", &record(&[&a], 20, "b"), &empty).unwrap();
    let c = store_commit(&mut system, "/r", &record(&[&a, "missing"], 30, "c"), &empty).unwrap();
    store_commit(&mut system, "/r", &record(&[&c], 40, "d"), &empty).unwrap();
    let ids = |starts: &[String], limit: usize| -> Vec<String> {
        reachable_history(&system, "/r", starts, limit).into_iter().map(|(id, _)| id).collect()
    };
    assert_eq!(ids(&[b.clone(), c.clone()], 3), vec![c.clone(), b.clone(), a.clone()]);
    assert_eq!(ids(&[c.clone(), "missing".to_string()], 10), vec![c.clone(), a.clone()]);
    assert_eq!(ids(&[b.clone(), c.clone()], 2).len(), 2);
    assert_eq!(ids(&[], 10), Vec::<String>::new());
}

#[test]
fn the_best_common_ancestor_is_found() {
    let mut system = System::new();
    let empty: Tree = OrdMap::new();
    let r = store_commit(&mut system, "/r", &record(&[], 10, "r"), &empty).unwrap();
    let a = store_commit(&mut system, "/r", &record(&[&r], 20, "a"), &empty).unwrap();
    // `r` is a parent of both, and still `a` is the better one.
    let left = store_commit(&mut system, "/r", &record(&[&a, &r], 30, "left"), &empty).unwrap();
    assert_eq!(merge_base(&system, "/r", &left, &a), Some(a.clone()));
    assert_eq!(merge_base(&system, "/r", &a, &left), Some(a.clone()));
    assert_eq!(merge_base(&system, "/r", &left, &left), Some(left.clone()));
    // Of two that are equally good the one nearest the left-hand side is taken.
    let x = store_commit(&mut system, "/r", &record(&[&r], 21, "x"), &empty).unwrap();
    let y = store_commit(&mut system, "/r", &record(&[&x], 22, "y"), &empty).unwrap();
    let p = store_commit(&mut system, "/r", &record(&[&a, &y], 40, "p"), &empty).unwrap();
    let q = store_commit(&mut system, "/r", &record(&[&x, &a], 41, "q"), &empty).unwrap();
    assert_eq!(merge_base(&system, "/r", &p, &q), Some(a));
    assert_eq!(merge_base(&system, "/r", &q, &p), Some(x));
    let alone = store_commit(&mut system, "/r", &record(&[], 50, "alone"), &empty).unwrap();
    assert_eq!(merge_base(&system, "/r", &left, &alone), None);
}

#[test]
fn stages_of_a_conflict_are_kept() {
    let mut system = System::new();
    let mut stages: Stages = OrdMap::new();
    let both = Unmerged { base: Some("1".into()), ours: Some("2".into()), theirs: Some("3".into()) };
    assert_eq!((both.porcelain(), both.label()), ("UU", "both modified"));
    stages.insert("a".to_string(), both);
    stages.insert(
        "b".to_string(),
        Unmerged { base: Some("1".into()), ours: None, theirs: Some("3".into()) },
    );
    assert!(store_stages(&mut system, "/r", &stages));
    let back = load_stages(&system, "/r");
    assert_eq!(back.len(), 2);
    assert_eq!(back.get("b").unwrap().porcelain(), "DU");
    assert_eq!(back.get("a").unwrap().theirs.as_deref(), Some("3"));
    assert!(begin(&mut system, "/r", "MERGE_HEAD", "abcd", "message"));
    assert_eq!(in_progress(&system, "/r", "MERGE_HEAD").as_deref(), Some("abcd"));
    assert_eq!(pending_message(&system, "/r").as_deref(), Some("message"));
    clear(&mut system, "/r");
    assert_eq!(in_progress(&system, "/r", "MERGE_HEAD"), None);
    assert_eq!(load_stages(&system, "/r").len(), 0);
}

#[test]
fn codes_of_unmerged_paths() {
    let side = |base: bool, ours: bool, theirs: bool| {
        let make = |there: bool| if there { Some("x".to_string()) } else { None };
        Unmerged { base: make(base), ours: make(ours), theirs: make(theirs) }.porcelain()
    };
    assert_eq!(side(true, true, true), "UU");
    assert_eq!(side(false, true, true), "AA");
    assert_eq!(side(true, true, false), "UD");
    assert_eq!(side(true, false, true), "DU");
}

#[test]
fn a_rebase_is_kept_between_commands() {
    let mut system = System::new();
    let state = State {
        branch: "side".into(),
        original: "2222".into(),
        onto: "1111".into(),
        todo: words(&["3333", "4444"]),
    };
    assert!(store_rebase(&mut system, "/r", &state));
    let back = load_rebase(&system, "/r").unwrap();
    assert_eq!((back.branch, back.onto, back.todo), (state.branch, state.onto, state.todo));
}

#[test]
fn combining_takes_each_change_once() {
    let mut system = System::new();
    let base = tree(&[("a", "1"), ("b", "1"), ("c", "1")]);
    let ours = tree(&[("a", "2"), ("b", "1"), ("c", "1")]);
    let theirs = tree(&[("a", "1"), ("b", "3"), ("d", "4")]);
    let combined = match combine(&mut system, "/r", &base, &ours, &theirs, "HEAD", "side") {
        Ok(combined) => combined,
        Err(_) => panic!("nothing to refuse"),
    };
    assert_eq!(combined.stages.len(), 0);
    assert!(shellsim::names::same_tree(&combined.tree, &tree(&[("a", "2"), ("b", "3"), ("d", "4")])));
}

#[test]
fn a_format_is_expanded_or_refused() {
    let n = record(&["p"], 0, "subject\n\nbody");
    assert_eq!(
        expand_format_checked("%h %s%n%an <%ae>", "0123456789", &n, "", 0).as_deref(),
        Some("0123456 subject\nAda <ada@example.com>")
    );
    assert!(format_is_supported("%H"));
    assert!(!format_is_supported("%Q"));
    assert_eq!(expand_format_checked("%Q", "0", &n, "", 0), None);
}

#[test]
fn a_rail_follows_both_parents() {
    let mut rail = Rail::new();
    let first = rail.advance("m", &words(&["a", "b"]));
    assert!(first.first.contains('*'), "{}", first.first);
    let second = rail.advance("a", &words(&["r"]));
    assert!(second.first.contains('|'), "{}", second.first);
}

#[test]
fn statistics_are_summed_up() {
    assert_eq!(summary_line(1, 1, 0), " 1 file changed, 1 insertion(+)\n");
    assert_eq!(summary_line(2, 3, 4), " 2 files changed, 3 insertions(+), 4 deletions(-)\n");
    assert_eq!(scale_graph(3, 2), (3, 2));
    assert_eq!(scale_graph(40, 0), (40, 0));
    assert_eq!(scale_graph(60, 20), (30, 10));
    assert_eq!(scale_graph(1000, 0), (40, 0));
    assert_eq!(scale_graph(1000, 1), (39, 1));
    assert_eq!(scale_graph(1, 1000), (1, 39));
    assert_eq!(split_range("a..b"), Some(("a".into(), "b".into(), false)));
    assert_eq!(split_range("a...b"), Some(("a".into(), "b".into(), true)));
    assert_eq!(split_range("ab"), None);
}

#[test]
fn a_patch_is_described_and_turned() {
    let patch = "--- a/f\n+++ b/f\n@@ -1 +1,2 @@\n-old\n+new\n+more\n";
    let counts = patch_counts(patch);
    assert_eq!(counts.len(), 1);
    assert_eq!(describe(patch, "--numstat"), "2\t1\tf\n");
    // The lines of a file that goes count for no other file.
    let both = "--- a/x\n+++ b/x\n@@ -1 +1 @@\n-a\n+b\n--- a/y\n+++ /dev/null\n@@ -1 +0,0 @@\n-z\n";
    assert_eq!(describe(both, "--numstat"), "1\t1\tx\n");
    let third = format!("{both}--- a/w\n+++ b/w\n@@ -0,0 +1 @@\n+w\n");
    assert_eq!(describe(&third, "--numstat"), "1\t1\tx\n1\t0\tw\n");
    let turned = reverse_patch(patch);
    assert!(turned.contains("@@ -1,2 +1 @@"), "{turned}");
    assert!(turned.contains("+old\n"), "{turned}");
    assert!(turned.contains("-new\n"), "{turned}");
}

#[test]
fn basic_patterns_become_extended_ones() {
    assert_eq!(basic_to_extended("a\\(b\\)+"), Ok("a(b)\\+".to_string()));
    assert_eq!(basic_to_extended("a\\{2\\}"), Ok("a{2}".to_string()));
}

#[test]
fn names_of_references_are_checked() {
    assert!(valid_reference_name("topic/one"));
    assert!(!valid_reference_name("a..b"));
    assert!(!valid_reference_name(""));
    assert!(!valid_reference_name("a b"));
}

#[test]
fn an_inverted_search_counts_the_other_lines() {
    let lines = words(&["a", "b", "c"]);
    let style = GrepStyle {
        invert: true,
        count_only: true,
        names_only: false,
        line_numbers: false,
        without_match: false,
    };
    let (text, found) = report_file(style, "f", &lines, &[true, false, false]);
    assert_eq!((text.as_str(), found), ("f:2\n", true));
}

#[test]
fn blobs_are_named_as_git_names_them() {
    assert_eq!(blob_hash(b""), "e69de29bb2d1d6434b8b29ae775ad8c2e48c5391");
    assert_eq!(short("0123456789"), "0123456");
}

#[test]
fn letters_of_any_script_are_letters() {
    let n = record(&[], 0, "straße 1!");
    assert_eq!(expand_format_checked("%f", "0", &n, "", 0).as_deref(), Some("straße-1-"));
    let old = "é first\n1\n2\n3\n4\n5\n";
    let new = "é first\n1\n2\n3\n4\nfive\n";
    let patch = shellsim::diff::render("f", Some(old.as_bytes()), Some(new.as_bytes()), 3, true);
    assert!(patch.contains(" @@ é first\n"), "{patch}");
}

#[test]
fn malformed_text_is_replaced_or_refused() {
    assert_eq!(shellsim::bytes::text_or_empty(b"abc"), "abc");
    assert_eq!(shellsim::bytes::text_or_empty(b"\xff"), "");
    assert!(!shellsim::bytes::is_text(b"\xff"));
    let mut system = System::new();
    assert!(system.put_file_with_parents("/t", b"a\xffb".to_vec(), 0o644).is_ok());
    assert_eq!(shellsim::repo::read_text(&system, "/t").as_deref(), Some("a\u{fffd}b"));
}

#[test]
fn a_patch_turned_twice_has_its_lines_again() {
    let patch = "--- a/f\n+++ b/f\n@@ -1 +1,2 @@\n-old\n+new\n+more\n";
    let twice = reverse_patch(&reverse_patch(patch));
    for line in ["-old\n", "+new\n", "+more\n", "@@ -1 +1,2 @@\n"] {
        assert!(twice.contains(line), "{twice}");
    }
}

#[test]
fn the_lengths_of_names() {
    assert_eq!(sha1_hex(b"anything").len(), 40);
}

#[test]
fn paths_are_shown_relative_to_a_directory() {
    assert_eq!(displayed_path("", "a/c"), "a/c");
    assert_eq!(displayed_path("a/", "a/c"), "c");
    assert_eq!(displayed_path("a/b/", "a/c"), "../c");
    assert_eq!(displayed_path("a/b/", "ab/c"), "../../ab/c");
    assert_eq!(displayed_path("a/b/", "x"), "../../x");
}
