use shellsim::makefile::{expand_vars, parse_args, parse_makefile, recipe_prefixes, validate_name};
use shellsim::order::OrdMap;
use shellsim::system::System;

#[test]
fn parses_assignments_rules_and_recipes() {
    let mut system = System::new();
    let parsed = parse_makefile(
        &mut system,
        "OUT = result.txt\n.PHONY: all\nall: $(OUT)\n\t@echo $(OUT)\n",
    )
    .unwrap_or_else(|error| panic!("{error}"));
    assert_eq!(parsed.vars.get("OUT").map(String::as_str), Some("result.txt"));
    assert!(parsed.phony.contains_key("all"));
    let all = parsed.rules.get("all").unwrap();
    assert_eq!(all.prerequisites, vec!["result.txt"]);
    assert_eq!(all.recipes[0].line, 4);
}

#[test]
fn expansion_supports_automatic_variables_and_dollar_escape() {
    let mut vars = OrdMap::new();
    vars.insert("NAME".to_string(), "value".to_string());
    assert_eq!(
        expand_vars("$(NAME) $@ $< $$HOME", &vars, "out", &["in".into()], 4).unwrap(),
        "value out in $HOME"
    );
}

#[test]
fn parse_args_accepts_clustered_short_flags_and_jobs() {
    let options = parse_args(&["-nk".to_string(), "-j4".to_string(), "all".to_string()])
        .expect("valid options");
    assert!(options.dry_run);
    assert!(options.keep_going);
    assert_eq!(options.jobs, Some(4));
    assert_eq!(options.targets, vec!["all".to_string()]);
}

#[test]
fn export_and_unexport_directives_are_recorded() {
    let mut system = System::new();
    let parsed = parse_makefile(
        &mut system,
        "A=1\nexport B=2\nexport C := 3\nexport A\nunexport D\nall:\n\t@true\n",
    )
    .unwrap_or_else(|error| panic!("{error}"));
    assert_eq!(parsed.vars.get("A").map(String::as_str), Some("1"));
    assert_eq!(parsed.vars.get("B").map(String::as_str), Some("2"));
    assert_eq!(parsed.vars.get("C").map(String::as_str), Some("3"));
    assert_eq!(parsed.export_state.get("A"), Some(&true));
    assert_eq!(parsed.export_state.get("B"), Some(&true));
    assert_eq!(parsed.export_state.get("C"), Some(&true));
    assert_eq!(parsed.export_state.get("D"), Some(&false));
    // A plain assignment does not export by itself.
    assert!(!parsed.export_state.contains_key("nonexistent"));
}

#[test]
fn bare_export_directive_is_unsupported() {
    let mut system = System::new();
    let error = match parse_makefile(&mut system, "export\nall:\n\t@true\n") {
        Ok(_) => panic!("a bare export was read"),
        Err(error) => error,
    };
    assert!(error.contains("unsupported"), "{error}");
}

#[test]
fn recipe_signs_are_taken_off_the_front() {
    assert_eq!(recipe_prefixes("@-echo"), (true, true, "echo".to_string()));
    assert_eq!(recipe_prefixes("echo @"), (false, false, "echo @".to_string()));
}

#[test]
fn unknown_options_are_refused() {
    assert!(parse_args(&["--frobnicate".to_string()]).is_none());
    assert!(parse_args(&["-jx".to_string()]).is_none());
}

#[test]
fn a_variable_that_names_itself_runs_out_of_depth() {
    let mut vars = OrdMap::new();
    vars.insert("A".to_string(), "$(A)".to_string());
    assert!(expand_vars("$(A)", &vars, "", &[], 4).is_err());
}

#[test]
fn target_names_are_checked() {
    assert_eq!(validate_name("all", 1), Ok(()));
    assert!(validate_name("a%b", 1).is_err());
}

#[test]
fn targets_are_listed_once_in_the_order_of_their_first_rule() {
    let mut system = System::new();
    let parsed = parse_makefile(&mut system, "z a: x\n\ttrue\nm: z\na: y\nz:\nb: m\n")
        .unwrap_or_else(|error| panic!("{error}"));
    assert_eq!(parsed.order, vec!["z", "a", "m", "b"]);
    assert_eq!(parsed.rules.len(), 4);
    assert_eq!(parsed.rules.get("a").unwrap().prerequisites, vec!["x", "y"]);
    assert!(parse_makefile(&mut system, "%.o: a\n").is_err());
}
