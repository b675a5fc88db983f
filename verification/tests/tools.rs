use shellsim::console::Io;
use shellsim::grep::{cmd_egrep, cmd_fgrep, cmd_grep, read_grep};
use shellsim::hashing::{
    cmd_base64, cmd_cksum, cmd_hexdump, cmd_md5sum, cmd_sha1sum, cmd_sha256sum, cmd_sha512sum, cmd_strings,
    printable_runs, split_flags,
};
use shellsim::order::OrdMap;
use shellsim::registry::{CommandSpec, Program, Trust};
use shellsim::system::System;

fn words(args: &[&str]) -> Vec<String> {
    args.iter().map(|value| (*value).to_string()).collect()
}

type Tool = fn(&mut System, &[String], &mut Io) -> i32;

fn run(tool: Tool, system: &mut System, args: &[&str], stdin: &[u8]) -> (i32, String, String) {
    let mut io = Io::new();
    io.stdin = stdin.to_vec();
    let status = tool(system, &words(args), &mut io);
    (status, String::from_utf8(io.out).unwrap(), String::from_utf8(io.err).unwrap())
}

fn out(tool: Tool, args: &[&str], stdin: &[u8]) -> String {
    let mut system = System::new();
    let (status, out, err) = run(tool, &mut system, args, stdin);
    assert_eq!(status, 0, "{args:?}: {err}");
    out
}

fn put(system: &mut System, path: &str, text: &str) {
    assert!(system.put_file_with_parents(path, text.as_bytes().to_vec(), 0o644).is_ok());
}

const TEXT: &[u8] = b"alpha\nbeta\ngamma\nAlpha beta\n";

#[test]
fn grep_prints_the_lines_that_match() {
    assert_eq!(out(cmd_grep, &["beta"], TEXT), "beta\nAlpha beta\n");
    assert_eq!(out(cmd_grep, &["-v", "beta"], TEXT), "alpha\ngamma\n");
    assert_eq!(out(cmd_grep, &["-c", "beta"], TEXT), "2\n");
    assert_eq!(out(cmd_grep, &["-n", "-i", "^alpha"], TEXT), "1:alpha\n4:Alpha beta\n");
    assert_eq!(out(cmd_grep, &["-o", "a[lm]"], TEXT), "al\nam\n");
    assert_eq!(out(cmd_grep, &["-x", "beta"], TEXT), "beta\n");
    assert_eq!(out(cmd_grep, &["-w", "bet"], b"bet\nbeta\n"), "bet\n");
    assert_eq!(out(cmd_grep, &["-m", "1", "a"], TEXT), "alpha\n");
    assert_eq!(out(cmd_grep, &["-q", "beta"], TEXT), "");
}

#[test]
fn grep_says_when_nothing_matched() {
    let mut system = System::new();
    assert_eq!(run(cmd_grep, &mut system, &["delta"], TEXT).0, 1);
    assert_eq!(run(cmd_grep, &mut system, &["x", "/missing"], b"").0, 2);
    let (status, _, err) = run(cmd_egrep, &mut system, &["("], TEXT);
    assert_eq!(status, 2, "{err}");
}

#[test]
fn patterns_are_basic_extended_or_fixed() {
    assert_eq!(out(cmd_grep, &["a\\+b"], b"aab\na+b\n"), "aab\n");
    assert_eq!(out(cmd_grep, &["a+b"], b"aab\na+b\n"), "a+b\n");
    assert_eq!(out(cmd_egrep, &["a+b"], b"aab\na+b\n"), "aab\n");
    assert_eq!(out(cmd_fgrep, &["a+b"], b"aab\na+b\n"), "a+b\n");
    assert_eq!(out(cmd_grep, &["-e", "x", "-e", "y"], b"x\ny\nz\n"), "x\ny\n");
}

#[test]
fn grep_shows_the_lines_around_a_match() {
    assert_eq!(out(cmd_grep, &["-A", "1", "alpha"], TEXT), "alpha\nbeta\n");
    assert_eq!(out(cmd_grep, &["-n", "-B1", "gamma"], TEXT), "2-beta\n3:gamma\n");
    assert_eq!(out(cmd_grep, &["-C1", "x"], b"1\nx\n2\n3\n4\nx\n5\n"), "1\nx\n2\n--\n4\nx\n5\n");
}

#[test]
fn grep_names_files_where_there_are_several() {
    let mut system = System::new();
    put(&mut system, "/d/a.txt", "alpha\n");
    put(&mut system, "/d/b.txt", "alpha beta\n");
    put(&mut system, "/d/c.log", "alpha\n");
    let (status, text, err) = run(cmd_grep, &mut system, &["alpha", "/d/a.txt", "/d/b.txt"], b"");
    assert_eq!((status, text.as_str()), (0, "/d/a.txt:alpha\n/d/b.txt:alpha beta\n"), "{err}");
    let (_, text, _) = run(cmd_grep, &mut system, &["-h", "beta", "/d/a.txt", "/d/b.txt"], b"");
    assert_eq!(text, "alpha beta\n");
    let (_, text, _) = run(cmd_grep, &mut system, &["-rl", "alpha", "/d", "--include=*.txt"], b"");
    assert_eq!(text, "/d/a.txt\n/d/b.txt\n");
    let (_, text, _) = run(cmd_grep, &mut system, &["-L", "beta", "/d/a.txt", "/d/b.txt"], b"");
    assert_eq!(text, "/d/a.txt\n");
}

#[test]
fn grep_takes_its_options_in_any_spelling() {
    for args in [vec!["-m5", "x"], vec!["-m", "5", "x"], vec!["--max-count=5", "x"], vec!["--max-count", "5", "x"]] {
        let (chosen, operands) = read_grep(&words(&args)).unwrap_or_else(|error| panic!("{error}"));
        assert_eq!(chosen.len(), 1, "{args:?}");
        assert_eq!(operands, vec!["x".to_string()]);
    }
    assert!(read_grep(&words(&["--frobnicate"])).is_err());
}

#[test]
fn grep_only_reads() {
    let mut system = System::new();
    put(&mut system, "/a", "alpha\n");
    let before = system.save_files();
    run(cmd_grep, &mut system, &["alpha", "/a"], b"");
    assert_eq!(system.file_count(), before.len());
    assert_eq!(system.read_file("/a"), Some(b"alpha\n".to_vec()));
}

#[test]
fn digests_of_known_texts() {
    assert_eq!(
        out(cmd_sha256sum, &[], b"abc"),
        "ba7816bf8f01cfea414140de5dae2223b00361a396177a9cb410ff61f20015ad  -\n"
    );
    assert_eq!(out(cmd_sha1sum, &[], b"abc"), "a9993e364706816aba3e25717850c26c9cd0d89d  -\n");
    assert_eq!(out(cmd_md5sum, &[], b"abc"), "900150983cd24fb0d6963f7d28e17f72  -\n");
    assert_eq!(
        out(cmd_sha512sum, &[], b"abc"),
        "ddaf35a193617abacc417349ae20413112e6fa4e89a97ea20a9eeee64b55d39a2192992a274fc1a836ba3c23a3feebbd454d4423643ce80e2a9ac94fa54ca49f  -\n"
    );
}

#[test]
fn digests_name_their_files() {
    let mut system = System::new();
    put(&mut system, "/a", "abc");
    let (status, text, err) = run(cmd_md5sum, &mut system, &["/a"], b"");
    assert_eq!((status, text.as_str()), (0, "900150983cd24fb0d6963f7d28e17f72  /a\n"), "{err}");
    assert_eq!(run(cmd_md5sum, &mut system, &["/missing"], b"").0, 1);
    let (_, text, _) = run(cmd_cksum, &mut system, &["/a"], b"");
    assert_eq!(text, "1219131554 3  /a\n");
}

#[test]
fn base64_goes_there_and_back() {
    assert_eq!(out(cmd_base64, &[], b"hello"), "aGVsbG8=\n");
    assert_eq!(out(cmd_base64, &["-d"], b"aGVsbG8=\n"), "hello");
    let mut system = System::new();
    assert_eq!(run(cmd_base64, &mut system, &["-d"], b"!!!").0, 1);
}

#[test]
fn bytes_are_dumped() {
    assert_eq!(out(cmd_hexdump, &[], b"AB\n"), "41420a\n");
}

#[test]
fn printable_runs_have_four_characters() {
    assert_eq!(printable_runs(b"ab\x00abcd\x01xyz\x02hello"), "abcd\nhello\n");
    assert_eq!(out(cmd_strings, &[], b"\x00text\x00no\x00"), "text\n");
}

#[test]
fn flags_and_operands_are_told_apart() {
    let parts = split_flags(&words(&["-d", "file", "--", "-x"]));
    assert_eq!(parts.operands, words(&["file", "-x"]));
}

#[test]
fn every_tool_has_its_place() {
    let mut commands: OrdMap<CommandSpec> = OrdMap::new();
    shellsim::git::register(&mut commands);
    shellsim::grep::register(&mut commands);
    shellsim::hashing::register(&mut commands);
    assert!(commands.contains_key("/usr/bin/git"));
    for name in ["grep", "egrep", "fgrep", "/usr/bin/cksum", "/usr/bin/base64", "/usr/bin/od", "/usr/bin/strings"] {
        assert!(commands.contains_key(name), "{name}");
    }
    let spec = commands.get("/usr/bin/git").unwrap();
    assert!(spec.program == Program::Git);
    assert!(spec.trust == Trust::Partial);
    assert!(commands.get("/usr/bin/md5sum").unwrap().program == Program::Md5Sum);
}

#[test]
fn a_printed_digest_checks_against_its_file() {
    let mut system = System::new();
    put(&mut system, "/a", "abc");
    let (_, line, _) = run(cmd_sha256sum, &mut system, &["/a"], b"");
    let (status, text, err) = run(cmd_sha256sum, &mut system, &["-c"], line.as_bytes());
    assert_eq!((status, text.as_str()), (0, "/a: OK\n"), "{err}");
    put(&mut system, "/a", "abd");
    let (status, text, _) = run(cmd_sha256sum, &mut system, &["-c"], line.as_bytes());
    assert_eq!((status, text.as_str()), (1, "/a: FAILED\n"));
    assert_eq!(run(cmd_sha256sum, &mut system, &["-c"], b"nospace\n").0, 1);
    assert_eq!(run(cmd_sha256sum, &mut system, &["-z"], b"").0, 2);
}
