use shellsim::settings::{add_value, config_value, parse_config, serialize_config, valid_config_key, Values};

#[test]
fn reads_and_writes_git_ini_format() {
    let text = "[user]\n\tname = Ada\n\temail = ada@example.com\n[remote \"origin\"]\n\turl = https://example.com/r.git\n";
    let config = parse_config(text);
    assert_eq!(config_value(&config, "user.name"), Some("Ada"));
    assert_eq!(
        config_value(&config, "remote.origin.url"),
        Some("https://example.com/r.git")
    );
    // Serialization groups by section in sorted order, which keeps output deterministic.
    assert_eq!(
        String::from_utf8(serialize_config(&config)).unwrap(),
        "[remote \"origin\"]\n\turl = https://example.com/r.git\n[user]\n\temail = ada@example.com\n\tname = Ada\n"
    );
    assert_eq!(
        parse_config(&String::from_utf8(serialize_config(&config)).unwrap()),
        config
    );
}

#[test]
fn accepts_comments_and_bare_boolean_keys() {
    let config = parse_config("# a comment\n[core]\n\tbare\n; another\n");
    assert_eq!(config_value(&config, "core.bare"), Some("true"));
}

#[test]
fn a_key_keeps_every_value() {
    let mut config = parse_config("");
    add_value(&mut config, "a.b".to_string(), "1".to_string());
    add_value(&mut config, "a.b".to_string(), "2".to_string());
    assert_eq!(config.get("a.b"), Some(&Values { list: vec!["1".to_string(), "2".to_string()] }));
    assert_eq!(config_value(&config, "a.b"), Some("2"));
    assert_eq!(config_value(&config, "a.c"), None);
}

#[test]
fn keys_need_a_section_and_a_name() {
    assert!(valid_config_key("user.name"));
    assert!(!valid_config_key("user"));
    assert!(!valid_config_key(".name"));
}
