use shellsim::flags::{expand_clusters, Arg, Flags};

fn words(args: &[&str]) -> Vec<String> {
    args.iter().map(|value| (*value).to_string()).collect()
}

fn parse(args: &[&str]) -> Vec<Arg> {
    let args = words(args);
    let mut flags = Flags::new(&args).clustered("am").valued("n");
    let mut out = Vec::new();
    while let Some(arg) = flags.next() {
        out.push(arg);
    }
    out
}

fn option(name: &str, attached: Option<&str>) -> Arg {
    Arg::Option {
        name: name.to_string(),
        attached: attached.map(str::to_string),
    }
}

#[test]
fn all_four_spellings_of_a_value_read_the_same() {
    let spellings = [
        vec!["-n5"],
        vec!["-n", "5"],
        vec!["--max-count=5"],
        vec!["--max-count", "5"],
    ];
    for spelling in spellings {
        let args = words(&spelling);
        let mut flags = Flags::new(&args).valued("n");
        let Some(Arg::Option { attached, .. }) = flags.next() else {
            panic!("{spelling:?} did not read as an option");
        };
        assert_eq!(flags.value(attached).as_deref(), Some("5"), "{spelling:?}");
    }
}

#[test]
fn a_cluster_splits_into_its_letters() {
    assert_eq!(
        parse(&["-am"]),
        vec![option("-a", None), option("-m", None)]
    );
}

#[test]
fn everything_after_a_separator_is_an_operand() {
    assert_eq!(
        parse(&["-a", "--", "-a", "--max-count=5"]),
        vec![
            option("-a", None),
            Arg::Operand("-a".to_string()),
            Arg::Operand("--max-count=5".to_string()),
        ]
    );
}

#[test]
fn a_bare_dash_is_an_operand() {
    assert_eq!(parse(&["-"]), vec![Arg::Operand("-".to_string())]);
}

#[test]
fn an_optional_value_does_not_swallow_the_next_option() {
    let args = words(&["--contains", "--merged"]);
    let mut flags = Flags::new(&args);
    let Some(Arg::Option { attached, .. }) = flags.next() else {
        panic!("--contains did not read as an option");
    };
    assert_eq!(flags.optional_value(attached), None);
    assert_eq!(flags.next(), Some(option("--merged", None)));
}

#[test]
fn a_cluster_with_an_unknown_letter_stays_whole() {
    assert_eq!(expand_clusters(&words(&["-ax"]), "am"), words(&["-ax"]));
    assert_eq!(expand_clusters(&words(&["-ma", "x"]), "am"), words(&["-m", "-a", "x"]));
}

#[test]
fn the_rest_is_handed_over_as_it_is() {
    let args = words(&["-a", "x", "--", "-b"]);
    let mut flags = Flags::new(&args);
    assert_eq!(flags.next(), Some(option("-a", None)));
    assert!(!flags.separated());
    assert_eq!(flags.rest(), words(&["x", "--", "-b"]));
    assert_eq!(flags.next(), None);
}
