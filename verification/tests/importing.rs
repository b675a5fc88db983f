use shellsim::importing::{
    advance_walk, git_failure, git_optional_text, git_text, initialize_private_repository, object_size, parse_author,
    parse_commit, parse_tree_entries, place_head, require_head, select_commits, start_walk, store_source, take_blob, take_tree,
    validate_head_reference, validate_oid, validate_repository, Answer, Ask, Finding, TranslationState,
};
use shellsim::objects::blob_hash;
use shellsim::order::OrdMap;
use shellsim::repo::{current_branch, head_commit, load_index, read_blob};
use shellsim::system::System;

#[test]
fn raw_tree_entries_preserve_modes_names_and_binary_object_ids() {
    let mut raw = b"100755 script.sh\0".to_vec();
    raw.extend([0x12; 20]);
    raw.extend_from_slice(b"40000 src\0");
    raw.extend([0xab; 20]);

    let entries = parse_tree_entries(&raw, "tree").unwrap();

    assert_eq!(entries.len(), 2);
    assert_eq!(entries[0].mode, "100755");
    assert_eq!(entries[0].name, b"script.sh");
    assert_eq!(entries[0].id, "12".repeat(20));
    assert_eq!(entries[1].mode, "40000");
    assert_eq!(entries[1].name, b"src");
    assert_eq!(entries[1].id, "ab".repeat(20));
}

#[test]
fn raw_tree_entries_reject_truncated_object_ids() {
    let error = parse_tree_entries(b"100644 file\0short", "tree").unwrap_err();

    assert!(error.contains("truncated object id"), "{error}");
}

fn id(digit: &str) -> String {
    digit.repeat(40)
}

#[test]
fn object_ids_are_forty_hexadecimal_digits() {
    assert_eq!(validate_oid(&id("a"), "commit"), Ok(()));
    let error = validate_oid("a\"b", "commit").unwrap_err();
    // The name is shown as Rust's own debug output shows it.
    assert!(error.contains("\"a\\\"b\""), "{error}");
}

#[test]
fn head_names_a_branch() {
    assert_eq!(validate_head_reference("refs/heads/main"), Ok(()));
    assert!(validate_head_reference("refs/heads/../x").is_err());
    assert!(validate_head_reference("refs/tags/v1").is_err());
}

#[test]
fn authors_have_a_name_an_address_and_a_time() {
    assert_eq!(
        parse_author("Ada Lovelace <ada@example.com> 1700000000 +0100", "c").unwrap(),
        ("Ada Lovelace".to_string(), "ada@example.com".to_string(), 1700000000)
    );
    assert!(parse_author("nobody", "c").is_err());
}

#[test]
fn commits_are_read() {
    let text = format!(
        "tree {}\nparent {}\nauthor Ada <a@x> 12 +0000\ncommitter Ada <a@x> 12 +0000\n\nsubject\n\nbody\n",
        id("1"),
        id("2")
    );
    let commit = parse_commit(text.as_bytes(), "c").unwrap_or_else(|error| panic!("{error}"));
    assert_eq!(commit.tree, id("1"));
    assert_eq!(commit.parents, vec![id("2")]);
    assert!(parse_commit(b"author x", "c").is_err());
}

#[test]
fn selections_are_oldest_first_and_bounded() {
    let output = format!("{}\n{}\n", id("1"), id("2"));
    let selection = select_commits(&output).unwrap_or_else(|error| panic!("{error}"));
    assert_eq!(selection.order, vec![id("1"), id("2")]);
    assert!(select_commits("not an id\n").is_err());
    assert_eq!(require_head(&selection, &id("2")), Ok(()));
    assert_eq!(
        require_head(&selection, &id("3")),
        Err("bounded revision walk did not include HEAD".to_string())
    );
}

#[test]
fn object_headers_are_checked() {
    let header = format!("{} blob 12", id("3"));
    assert_eq!(object_size(header.as_bytes(), &id("3"), "blob"), Ok(12));
    assert!(object_size(header.as_bytes(), &id("3"), "tree").is_err());
    assert!(object_size(format!("{} missing", id("3")).as_bytes(), &id("3"), "blob").is_err());
}

#[test]
fn answers_of_the_other_side_are_read() {
    let arguments = vec!["rev-parse".to_string(), "HEAD".to_string()];
    let good = Answer { success: true, code: Some(0), status: "exit status: 0".to_string(), stdout: b"abc\n".to_vec(), stderr: Vec::new() };
    assert_eq!(git_text(&arguments, &good), Ok("abc".to_string()));
    let bad = Answer { success: false, code: Some(128), status: "exit status: 128".to_string(), stdout: Vec::new(), stderr: b"fatal: no\n".to_vec() };
    assert!(git_text(&arguments, &bad).is_err());
    let message = git_failure(&arguments, &bad);
    assert!(message.contains("fatal: no"), "{message}");
    assert!(git_optional_text(&arguments, &bad).is_err());
}

fn raw_tree(entries: &[(&str, &str, &str)]) -> Vec<u8> {
    let mut raw = Vec::new();
    for (mode, name, id) in entries {
        raw.extend_from_slice(format!("{mode} {name}\0").as_bytes());
        for k in 0..20 {
            raw.push(u8::from_str_radix(&id[2 * k..2 * k + 2], 16).unwrap());
        }
    }
    raw
}

#[test]
fn a_history_is_taken_over() {
    let mut system = System::new();
    initialize_private_repository(&mut system, "/work").unwrap();
    let blob = blob_hash(b"hello\n");
    let inner = raw_tree(&[("100755", "run.sh", &blob)]);
    let outer = raw_tree(&[("100644", "a.txt", &blob), ("40000", "bin", &id("d"))]);
    let mut state = TranslationState { blobs: OrdMap::new(), tree_entries: 0 };
    let mut walk = start_walk(&id("e"));
    let mut asked = Vec::new();
    loop {
        match advance_walk(&mut walk, &mut state).unwrap_or_else(|error| panic!("{error}")) {
            Ask::Nothing => break,
            Ask::Tree(name) => {
                let raw = if name == id("e") { &outer } else { &inner };
                take_tree(&mut walk, raw, &name).unwrap();
                asked.push(name);
            }
            Ask::Blob(name) => {
                take_blob(&mut system, "/work", b"hello\n", &name).unwrap();
                asked.push(name);
            }
        }
    }
    // The blob is asked for once, though two paths hold it.
    assert_eq!(asked, vec![id("e"), blob.clone(), id("d")]);
    assert_eq!(state.tree_entries, 3);
    assert_eq!(walk.imported.get("bin/run.sh").unwrap().mode(), "100755");
    assert_eq!(walk.imported.get("a.txt").unwrap().hash, blob);

    let text = format!("tree {}\nauthor Ada <a@x> 12 +0000\ncommitter Ada <a@x> 12 +0000\n\nfirst\n", id("e"));
    let source = parse_commit(text.as_bytes(), &id("c")).unwrap_or_else(|error| panic!("{error}"));
    let selected = vec![id("c")];
    let names = OrdMap::new();
    let head = store_source(&mut system, "/work", source, &walk.imported, &selected, &names, &id("c")).unwrap();
    place_head(&mut system, "/work", &Some("refs/heads/main".to_string()), &head, &walk.imported).unwrap();
    assert_eq!(current_branch(&system, "/work").as_deref(), Some("main"));
    assert_eq!(head_commit(&system, "/work"), Some(head));
    assert_eq!(load_index(&system, "/work").unwrap().len(), 2);
    assert_eq!(read_blob(&system, "/work", &blob), Some(b"hello\n".to_vec()));
}

fn walk_of(entries: &[(&str, &str, &str)]) -> Result<(), String> {
    let mut state = TranslationState { blobs: OrdMap::new(), tree_entries: 0 };
    let mut walk = start_walk(&id("e"));
    assert!(matches!(advance_walk(&mut walk, &mut state), Ok(Ask::Tree(_))));
    take_tree(&mut walk, &raw_tree(entries), &id("e"))?;
    advance_walk(&mut walk, &mut state).map(|_| ())
}

#[test]
fn unsafe_and_strange_entries_are_refused() {
    assert_eq!(walk_of(&[("100644", "fine", &id("1"))]), Ok(()));
    assert_eq!(
        walk_of(&[("100644", "..", &id("1"))]),
        Err("unsafe Git tree path component: \"..\"".to_string())
    );
    assert!(walk_of(&[("100644", "a/b", &id("1"))]).unwrap_err().contains("unsafe"));
    assert!(walk_of(&[("160000", "sub", &id("1"))]).unwrap_err().contains("submodule at sub"));
    assert!(walk_of(&[("123456", "odd", &id("1"))]).unwrap_err().contains("unsupported Git mode 123456 at odd"));
}

#[test]
fn a_blob_must_keep_its_name() {
    let mut system = System::new();
    let error = take_blob(&mut system, "/work", b"hello\n", &id("1")).unwrap_err();
    assert!(error.contains("did not retain its SHA-1"), "{error}");
}

#[test]
fn only_plain_repositories_are_taken_over() {
    assert_eq!(validate_repository(&Finding::Bare("false".to_string())), Ok(()));
    assert!(validate_repository(&Finding::Bare("true".to_string())).is_err());
    assert_eq!(validate_repository(&Finding::ObjectFormat("sha1".to_string())), Ok(()));
    assert!(validate_repository(&Finding::ObjectFormat("sha256".to_string())).is_err());
    assert_eq!(validate_repository(&Finding::AtTop(true)), Ok(()));
    assert!(validate_repository(&Finding::AtTop(false)).is_err());
    assert_eq!(validate_repository(&Finding::Alternates(false)), Ok(()));
    assert!(validate_repository(&Finding::Alternates(true)).is_err());
}

#[test]
fn malformed_trees_and_commits_are_refused() {
    assert!(parse_tree_entries(b"100644", "t").unwrap_err().contains("unterminated mode"));
    assert!(parse_tree_entries(b"100644 name", "t").unwrap_err().contains("unterminated name"));
    let message = |bytes: &[u8]| match parse_commit(bytes, "c") {
        Ok(_) => panic!("read"),
        Err(error) => error,
    };
    assert_eq!(message(b"tree x"), "commit c has no header terminator");
    assert_eq!(message(b"committer x\n\nm"), "commit c has no author");
    assert_eq!(message(b"author A <a> 1 +0\n\nm"), "commit c has no tree");
    assert_eq!(message(b"\xff\n\nm"), "commit c contains non-UTF-8 metadata or message");
    assert_eq!(message(b"author A <a> x +0\n\nm"), "commit c has an invalid author timestamp");
}
