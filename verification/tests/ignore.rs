use shellsim::ignore::{add_patterns, glob_match, IgnoreRules};

fn rules(base: &str, text: &str) -> IgnoreRules {
    let mut rules = IgnoreRules::default();
    add_patterns(&mut rules, base, text);
    rules
}

#[test]
fn matches_names_at_any_depth() {
    let rules = rules("", "*.log\n");
    assert!(rules.is_ignored("a.log"));
    assert!(rules.is_ignored("deep/nested/a.log"));
    assert!(!rules.is_ignored("a.txt"));
}

#[test]
fn anchors_patterns_containing_a_separator() {
    let rules = rules("", "/build\nsrc/generated\n");
    assert!(rules.is_ignored("build/out.o"));
    assert!(rules.is_ignored("src/generated/api.rs"));
    assert!(!rules.is_ignored("vendor/build/out.o"));
}

#[test]
fn honors_directory_only_and_negation() {
    let rules = rules("", "target/\n!target/keep.txt\n");
    assert!(rules.is_ignored("target/debug/app"));
    // Git cannot re-include a file below an ignored directory.
    assert!(rules.is_ignored("target/keep.txt"));
    assert!(!rules.is_ignored("target.txt"));
}

#[test]
fn applies_nested_pattern_files_only_below_their_directory() {
    let mut rules = rules("docs/", "draft.md\n");
    add_patterns(&mut rules, "", "top.md\n");
    assert!(rules.is_ignored("docs/draft.md"));
    assert!(!rules.is_ignored("draft.md"));
    assert!(rules.is_ignored("top.md"));
}

#[test]
fn supports_double_star() {
    let rules = rules("", "**/node_modules/**\n");
    assert!(rules.is_ignored("a/b/node_modules/pkg/index.js"));
}

#[test]
fn the_last_pattern_that_matches_decides() {
    let rules = rules("", "*.log\n!keep.log\n");
    assert!(rules.is_ignored("a.log"));
    assert!(!rules.is_ignored("keep.log"));
    assert_eq!(rules.describe("a.log").as_deref(), Some(".gitignore:*.log"));
    assert_eq!(rules.describe("a.txt"), None);
}

#[test]
fn no_patterns_ignore_nothing() {
    assert!(!IgnoreRules::default().is_ignored("anything"));
    assert!(!rules("", "# only a comment\n\n").is_ignored("# only a comment"));
}

#[test]
fn stars_stop_at_separators() {
    assert!(glob_match("a*c", "abbbc"));
    assert!(!glob_match("a*c", "a/c"));
    assert!(glob_match("a?c", "abc"));
    assert!(!glob_match("a?c", "a/c"));
    assert!(glob_match("a/**/z", "a/b/c/z"));
}
