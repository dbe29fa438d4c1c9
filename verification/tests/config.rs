use cmdnavi::config::{config_base, is_effectively_empty, parse, ConfigBase, CONFIG_UNDER_HOME, CONFIG_UNDER_XDG};
use cmdnavi::model::{CommandEntry, Config};
use cmdnavi::editor::{CATEGORY_EDIT_TEMPLATE, FULL_EDIT_TEMPLATE};

#[test]
fn comments_and_blank_lines_are_effectively_empty() {
    assert!(is_effectively_empty(""));
    assert!(is_effectively_empty("\n\n"));
    assert!(is_effectively_empty("# c\n  # d\n\n"));
    assert!(is_effectively_empty(" \t\r\n#x\r\n"));
    assert!(is_effectively_empty("#no newline at end"));
    assert!(is_effectively_empty("  \u{3000}#全角の空白のあと\n"));
    assert!(is_effectively_empty(FULL_EDIT_TEMPLATE));
    assert!(is_effectively_empty(CATEGORY_EDIT_TEMPLATE));
}

#[test]
fn any_setting_makes_the_text_non_empty() {
    assert!(!is_effectively_empty("a"));
    assert!(!is_effectively_empty("# c\nnetwork: []\n"));
    assert!(!is_effectively_empty("x # comment"));
    assert!(!is_effectively_empty("#c\n\n  - command: x\n"));
    assert!(is_effectively_empty("\r#x"));
}

#[test]
fn matches_the_line_based_rule() {
    let samples = ["", "a", "#a\nb", " #a\n\t#b\n", "\r\n", "x\r\n#", "#\r\r\nq"];
    for s in samples {
        let expected = s
            .lines()
            .all(|line| line.trim().is_empty() || line.trim_start().starts_with('#'));
        assert_eq!(is_effectively_empty(s), expected, "{s:?}");
    }
}

#[test]
fn joining_texts_with_a_line_feed() {
    let texts = ["", "# a", "x", "  \n#b", "#c\n", "y\n#"];
    for a in texts {
        for b in texts {
            let joined = format!("{a}\n{b}");
            assert_eq!(
                is_effectively_empty(&joined),
                is_effectively_empty(a) && is_effectively_empty(b),
                "{a:?} {b:?}"
            );
        }
    }
}

#[test]
fn the_configuration_lives_under_xdg_config_home_else_home() {
    assert_eq!(config_base(Some(b"/x".as_slice()), Some(b"/h".as_slice())).ok(), Some(ConfigBase::XdgConfigHome));
    assert_eq!(config_base(Some(b"".as_slice()), Some(b"/h".as_slice())).ok(), Some(ConfigBase::Home));
    assert_eq!(config_base(None, Some(b"/h".as_slice())).ok(), Some(ConfigBase::Home));
    assert_eq!(
        config_base(None, Some(b"".as_slice())).err().unwrap().0,
        "the configuration location could not be determined.\nSet HOME or XDG_CONFIG_HOME and try again."
    );
    assert_eq!(CONFIG_UNDER_XDG, "cmdnavi/config.yaml");
    assert_eq!(CONFIG_UNDER_HOME, ".config/cmdnavi/config.yaml");
}

#[test]
fn parse_accepts_empty_texts_and_valid_configurations() {
    let mut valid = Config::new();
    valid.insert("network".into(), vec![CommandEntry { command: "ip".into(), description: "d".into() }]);
    assert!(parse("# nothing\n", Err("ignored".into())).ok().unwrap().is_empty());
    assert_eq!(parse("x: [", Err("bad".into())).err().unwrap(), "bad");
    let parsed = parse("network: ...", Ok(valid)).ok().unwrap();
    assert_eq!(parsed.get("network").unwrap()[0].command, "ip");
    let mut invalid = Config::new();
    invalid.insert("add".into(), vec![]);
    assert!(parse("add: []", Ok(invalid)).err().unwrap().contains("is reserved"));
}
