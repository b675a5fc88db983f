use shellsim::merging::merge_content;

fn merged(base: &str, ours: &str, theirs: &str) -> (String, bool) {
    let (bytes, conflicted) = merge_content(
        base.as_bytes(),
        ours.as_bytes(),
        theirs.as_bytes(),
        "HEAD",
        "side",
    );
    (String::from_utf8(bytes).unwrap(), conflicted)
}

#[test]
fn changes_to_different_regions_both_survive() {
    let (text, conflicted) = merged(
        "one\ntwo\nthree\nfour\nfive\n",
        "ONE\ntwo\nthree\nfour\nfive\n",
        "one\ntwo\nthree\nfour\nFIVE\n",
    );
    assert!(!conflicted);
    assert_eq!(text, "ONE\ntwo\nthree\nfour\nFIVE\n");
}

#[test]
fn the_same_change_on_both_sides_is_not_a_conflict() {
    let (text, conflicted) = merged("a\nb\n", "a\nB\n", "a\nB\n");
    assert!(!conflicted);
    assert_eq!(text, "a\nB\n");
}

#[test]
fn competing_changes_to_one_region_are_written_as_a_conflict() {
    let (text, conflicted) = merged("a\nb\nc\n", "a\nOURS\nc\n", "a\nTHEIRS\nc\n");
    assert!(conflicted);
    assert_eq!(
        text,
        "a\n<<<<<<< HEAD\nOURS\n=======\nTHEIRS\n>>>>>>> side\nc\n"
    );
}

#[test]
fn a_missing_final_newline_still_separates_the_markers() {
    let (text, conflicted) = merged("a\n", "OURS", "THEIRS");
    assert!(conflicted);
    assert_eq!(text, "<<<<<<< HEAD\nOURS\n=======\nTHEIRS\n>>>>>>> side\n");
}

#[test]
fn an_untouched_side_takes_the_other() {
    assert_eq!(merged("a\nb\n", "a\nb\n", "x\n"), ("x\n".to_string(), false));
    assert_eq!(merged("a\nb\n", "y\n", "a\nb\n"), ("y\n".to_string(), false));
}

#[test]
fn two_insertions_at_one_point_collide() {
    let (text, conflicted) = merged("a\nb\n", "a\nO\nb\n", "a\nT\nb\n");
    assert!(conflicted);
    assert_eq!(text, "a\n<<<<<<< HEAD\nO\n=======\nT\n>>>>>>> side\nb\n");
}

#[test]
fn changes_to_neighbouring_lines_conflict() {
    let (text, conflicted) = merged("a\nb\n", "A\nb\n", "a\nB\n");
    assert!(conflicted);
    assert_eq!(text, "<<<<<<< HEAD\nA\nb\n=======\na\nB\n>>>>>>> side\n");
    let (text, conflicted) = merged("a\nb\nc\n", "A\nb\nc\n", "a\nb\nC\n");
    assert!(!conflicted);
    assert_eq!(text, "A\nb\nC\n");
}

#[test]
fn an_insertion_before_a_replaced_line_conflicts() {
    let (text, conflicted) = merged("a\n", "X\n", "N\na\n");
    assert!(conflicted);
    assert_eq!(text, "<<<<<<< HEAD\nX\n=======\nN\na\n>>>>>>> side\n");
    let (text, conflicted) = merged("a\nb\nc\n", "a\nc\n", "a\nb\nN\nc\n");
    assert!(conflicted);
    assert_eq!(text, "a\n<<<<<<< HEAD\n=======\nb\nN\n>>>>>>> side\nc\n");
}

#[test]
fn a_conflict_grows_with_every_change_that_touches_it() {
    let (text, conflicted) = merged(
        "a\nb\nc\nd\ne\n",
        "A\nb\nC\nd\ne\n",
        "a\nB\nc\nD\ne\n",
    );
    assert!(conflicted);
    assert_eq!(
        text,
        "<<<<<<< HEAD\nA\nb\nC\nd\n=======\na\nB\nc\nD\n>>>>>>> side\ne\n"
    );
}
