use shellsim::diff::{change_counts, edit_script, is_binary, render, split_lines, whitespace_errors, Op, DEFAULT_CONTEXT};

#[test]
fn renders_a_hunk_with_context_rather_than_the_whole_file() {
    let old = b"one\ntwo\nthree\nfour\nfive\nsix\nseven\neight\nnine\nten\n";
    let new = b"one\ntwo\nthree\nfour\nFIVE\nsix\nseven\neight\nnine\nten\n";
    let patch = render("f.txt", Some(old), Some(new), DEFAULT_CONTEXT, true);
    assert!(patch.contains("@@ -2,7 +2,7 @@ one\n"), "{patch}");
    assert!(patch.contains("-five\n+FIVE\n"), "{patch}");
    assert!(!patch.contains("-one"), "{patch}");
}

#[test]
fn marks_new_and_deleted_files() {
    let created = render("f.txt", None, Some(b"hello\n"), DEFAULT_CONTEXT, true);
    assert!(created.contains("new file mode 100644\n"), "{created}");
    assert!(created.contains("@@ -0,0 +1 @@\n+hello\n"), "{created}");
    let removed = render("f.txt", Some(b"hello\n"), None, DEFAULT_CONTEXT, true);
    assert!(removed.contains("deleted file mode 100644\n"), "{removed}");
    assert!(removed.contains("@@ -1 +0,0 @@\n-hello\n"), "{removed}");
}

#[test]
fn reports_a_missing_final_newline() {
    let patch = render("f.txt", Some(b"a\n"), Some(b"a\nb"), DEFAULT_CONTEXT, true);
    assert!(
        patch.contains("+b\n\\ No newline at end of file\n"),
        "{patch}"
    );
}

#[test]
fn treats_removing_the_final_newline_as_a_change() {
    let patch = render(
        "f.txt",
        Some(b"a\nb\n"),
        Some(b"a\nb"),
        DEFAULT_CONTEXT,
        true,
    );
    assert!(patch.contains("@@ -1,2 +1,2 @@\n"), "{patch}");
    assert!(
        patch.contains("-b\n+b\n\\ No newline at end of file\n"),
        "{patch}"
    );
    assert_eq!(change_counts(Some(b"a\nb\n"), Some(b"a\nb")), (1, 1));
}

#[test]
fn counts_changed_lines_by_alignment() {
    assert_eq!(
        change_counts(Some(b"a\nb\nc\n"), Some(b"a\nx\nc\n")),
        (1, 1)
    );
    assert_eq!(change_counts(None, Some(b"a\nb\n")), (2, 0));
    assert_eq!(change_counts(Some(b"a\nb\n"), None), (0, 2));
}

#[test]
fn uses_git_blob_hashes_in_index_lines() {
    let patch = render("f.txt", None, Some(b"a\nb\n"), DEFAULT_CONTEXT, true);
    assert!(patch.contains("index 0000000..422c2b7\n"), "{patch}");
}

#[test]
fn treats_content_with_nul_bytes_as_binary() {
    let patch = render(
        "f.bin",
        Some(b"\x00\x01"),
        Some(b"\x00\x02"),
        DEFAULT_CONTEXT,
        true,
    );
    assert!(
        patch.contains("Binary files a/f.bin and b/f.bin differ\n"),
        "{patch}"
    );
    assert!(is_binary(b"\x00"));
    assert!(!is_binary(b"text"));
}

#[test]
fn the_script_keeps_what_both_sides_share() {
    let old = split_lines(b"a\nb\nc\nd\n");
    let new = split_lines(b"a\nx\nc\nd\ne\n");
    let script = edit_script(&old, &new);
    let side = |skipped: Op| -> String {
        script.iter().filter(|e| e.op != skipped).map(|e| e.text.as_str()).collect::<String>()
    };
    assert_eq!(side(Op::Insert), old.concat());
    assert_eq!(side(Op::Delete), new.concat());
    assert_eq!(script.iter().filter(|e| e.op == Op::Keep).count(), 3);
}

#[test]
fn equal_files_make_no_patch() {
    assert_eq!(render("f", Some(b"a\n"), Some(b"a\n"), DEFAULT_CONTEXT, true), "");
    assert_eq!(change_counts(Some(b"a\n"), Some(b"a\n")), (0, 0));
}

#[test]
fn a_whole_patch() {
    assert_eq!(
        render("f.txt", Some(b"a\n"), Some(b"b\n"), DEFAULT_CONTEXT, true),
        "diff --git a/f.txt b/f.txt\nindex 7898192..6178079 100644\n--- a/f.txt\n+++ b/f.txt\n@@ -1 +1 @@\n-a\n+b\n"
    );
    assert!(!render("f.txt", Some(b"a\n"), Some(b"b\n"), DEFAULT_CONTEXT, false).contains("a/f.txt"));
}

#[test]
fn trailing_white_space_is_reported() {
    let report = whitespace_errors("f.txt", Some(b"a\n"), Some(b"a\nb \n"));
    assert!(report.contains("f.txt:2: trailing whitespace"), "{report}");
    assert_eq!(whitespace_errors("f.txt", Some(b"a \n"), Some(b"a \nb\n")), "");
}
