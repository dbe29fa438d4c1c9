use cmdnavi::cli::{add, parse_selection, remove, remove_choices, run, show, Action};
use cmdnavi::model::{validate_config, CommandEntry, Config};
use cmdnavi::text::{is_blank_str, trim_str};

fn entry(command: &str, description: &str) -> CommandEntry {
    CommandEntry {
        command: command.into(),
        description: description.into(),
    }
}

fn sample() -> Config {
    let mut config = Config::new();
    config.insert("network".into(), vec![entry("ip addr", "show IP")]);
    config.insert("docker".into(), vec![entry("docker ps", "containers")]);
    config
}

#[test]
fn changes_keep_a_valid_configuration_valid() {
    let mut config = sample();
    assert!(validate_config(&config).is_ok());
    add(&mut config, "git", "git log".into(), "history".into()).ok().unwrap();
    assert!(validate_config(&config).is_ok());
    let menu = config.get("network").unwrap().clone();
    remove(&mut config, "network", &menu, 1).ok().unwrap();
    assert!(validate_config(&config).is_ok());
}

#[test]
fn removing_what_was_just_added_restores_the_configuration() {
    let mut config = sample();
    add(&mut config, "network", "ss -tulpn".into(), "ports".into()).ok().unwrap();
    let menu = config.get("network").unwrap().clone();
    remove(&mut config, "network", &menu, menu.len()).ok().unwrap();
    assert!(config.equals(&sample()));

    let mut config = sample();
    add(&mut config, "git", "git log".into(), "history".into()).ok().unwrap();
    let menu = config.get("git").unwrap().clone();
    remove(&mut config, "git", &menu, 1).ok().unwrap();
    assert!(!config.equals(&sample()));
    assert!(config.get("git").unwrap().is_empty());
    assert_eq!(config.get("docker").unwrap()[0].command, "docker ps");
}

#[test]
fn show_after_add_ends_with_the_new_command() {
    let mut config = sample();
    let before = show(&config, "network").ok().unwrap();
    add(&mut config, "network", "ss".into(), "ports".into()).ok().unwrap();
    assert_eq!(show(&config, "network").ok().unwrap(), format!("{before}\nss\n  ports\n"));
    add(&mut config, "git", "git log".into(), "history".into()).ok().unwrap();
    assert_eq!(show(&config, "git").ok().unwrap(), "git log\n  history\n");
}

#[test]
fn menu_numbers_read_back_as_the_same_item() {
    let mut config = Config::new();
    for i in 0..12 {
        config.push_entry("many".into(), entry(&format!("c{i}"), "d"));
    }
    let menu = remove_choices(&config, "many").ok().unwrap();
    for n in 1..=12usize {
        let shown = format!("[{n}] c{}\n", n - 1);
        assert!(menu.contains(&shown));
        assert_eq!(parse_selection(&n.to_string(), 12).ok().unwrap(), n);
    }
}

#[test]
fn trimming_to_nothing_is_being_blank() {
    for s in ["", " ", "\u{2029}\t", "a", " a ", "\u{200b}"] {
        assert_eq!(trim_str(s).is_empty(), is_blank_str(s), "{s:?}");
    }
}

#[test]
fn a_configuration_does_not_depend_on_the_order_it_was_built_in() {
    let mut a = Config::new();
    a.insert("b".into(), vec![]);
    a.insert("a".into(), vec![entry("x", "y")]);
    let mut b = Config::new();
    b.insert("a".into(), vec![entry("x", "y")]);
    b.insert("b".into(), vec![]);
    assert!(a.equals(&b));
}

#[test]
fn a_valid_name_alone_asks_to_show_it() {
    for name in ["network", "Help", "service-op", "_x", "9"] {
        let request = run(&vec![name.to_string()]).ok().unwrap();
        assert_eq!(request.action, Action::Show);
        assert_eq!(request.category.as_deref(), Some(name));
    }
    assert!(cmdnavi::model::validate_category("-x").is_ok());
    assert!(run(&vec!["-x".to_string()]).is_err());
}
