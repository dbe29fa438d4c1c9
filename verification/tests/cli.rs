use cmdnavi::cli::{
    add, add_report, check_command, check_description, confirmation_prompt, is_confirmed, list,
    missing_category, parse_selection, read_line, remove, remove_choices, removed_report, run,
    show, version_line, Action, HELP,
};
use cmdnavi::model::{CommandEntry, Config};

fn args(words: &[&str]) -> Vec<String> {
    words.iter().map(|w| w.to_string()).collect()
}

fn entry(command: &str, description: &str) -> CommandEntry {
    CommandEntry {
        command: command.into(),
        description: description.into(),
    }
}

fn commands(config: &Config, category: &str) -> Vec<(String, String)> {
    config
        .get(category)
        .unwrap()
        .iter()
        .map(|e| (e.command.clone(), e.description.clone()))
        .collect()
}

fn run_error(words: &[&str]) -> String {
    match run(&args(words)) {
        Ok(_) => panic!("expected an error"),
        Err(e) => e.0,
    }
}

#[test]
fn add_show_list_and_remove_flow() {
    let mut config = Config::new();
    let command = read_line(Some("ip addr\n".into())).ok().unwrap();
    let description = read_line(Some("show IP\n".into())).ok().unwrap();
    add(&mut config, "network", command, description).ok().unwrap();
    let command = read_line(Some("ss -tulpn\n".into())).ok().unwrap();
    let description = read_line(Some("show ports\n".into())).ok().unwrap();
    add(&mut config, "network", command, description).ok().unwrap();
    assert_eq!(config.get("network").unwrap().len(), 2);
    let shown = show(&config, "network").ok().unwrap();
    assert!(shown.contains("ss -tulpn\n  show ports"));
    assert_eq!(list(&config), "network\n");
    let menu = config.get("network").unwrap().clone();
    let line = read_line(Some("1\n".into())).ok().unwrap();
    let selection = parse_selection(&line, menu.len()).ok().unwrap();
    let confirmation = read_line(Some("y\n".into())).ok().unwrap();
    assert!(is_confirmed(&confirmation));
    remove(&mut config, "network", &menu, selection).ok().unwrap();
    assert_eq!(
        commands(&config, "network"),
        vec![("ss -tulpn".to_string(), "show ports".to_string())]
    );
}

#[test]
fn add_to_empty_config_creates_category() {
    let mut config = Config::new();
    let created = add(&mut config, "docker", "docker ps".into(), "containers".into())
        .ok()
        .unwrap();
    assert!(created);
    assert!(config.contains_key("docker"));
}

#[test]
fn argument_errors_are_specific() {
    assert!(run_error(&["add"]).contains("needs a category"));
    assert!(run_error(&["--unknown"]).contains("unknown option"));
    assert!(run_error(&["list", "extra"]).contains("does not accept arguments"));
}

#[test]
fn run_decides_each_action() {
    let cases: Vec<(Vec<&str>, Action, Option<&str>)> = vec![
        (vec![], Action::Help, None),
        (vec!["-h"], Action::Help, None),
        (vec!["--help"], Action::Help, None),
        (vec!["help"], Action::Help, None),
        (vec!["-v"], Action::Version, None),
        (vec!["--version"], Action::Version, None),
        (vec!["version"], Action::Version, None),
        (vec!["list"], Action::List, None),
        (vec!["edit"], Action::EditAll, None),
        (vec!["network"], Action::Show, Some("network")),
        (vec!["add", "network"], Action::Add, Some("network")),
        (vec!["edit", "network"], Action::EditCategory, Some("network")),
        (vec!["remove", "network"], Action::Remove, Some("network")),
        (vec!["add", "bad name"], Action::Add, Some("bad name")),
    ];
    for (words, action, category) in cases {
        let request = run(&args(&words)).ok().unwrap();
        assert_eq!(request.action, action, "{words:?}");
        assert_eq!(request.category.as_deref(), category, "{words:?}");
    }
}

#[test]
fn run_errors_carry_the_whole_message() {
    assert_eq!(
        run_error(&["remove"]),
        "`remove` needs a category.\nAdd a category name as shown below.\n\nUsage:\n  cmdnavi remove <category>"
    );
    assert_eq!(
        run_error(&["-x"]),
        format!("unknown option \"-x\".\nRun `cmdnavi --help` and choose one of the supported options.\n\n{HELP}")
    );
    assert_eq!(
        run_error(&["version", "1"]),
        format!("command \"version\" does not accept arguments\n\n{HELP}")
    );
    assert_eq!(
        run_error(&["help", "me", "please"]),
        format!("command \"help\" does not accept arguments\n\n{HELP}")
    );
    assert_eq!(
        run_error(&["add", "a", "b"]),
        format!("the command could not be understood.\nPlease use one of the forms shown below.\n\n{HELP}")
    );
    assert_eq!(
        run_error(&["network", "x"]),
        format!("the command could not be understood.\nPlease use one of the forms shown below.\n\n{HELP}")
    );
    assert!(run_error(&["edit", "add"]).contains("is reserved"));
    assert!(run_error(&["edit", "a b"]).contains("contains characters that cannot be used"));
    assert_eq!(missing_category("add").0, "`add` needs a category.\nAdd a category name as shown below.\n\nUsage:\n  cmdnavi add <category>");
}

#[test]
fn help_and_version_texts() {
    assert!(HELP.contains("Usage:"));
    assert_eq!(version_line(), "cmdnavi 1.0.0\n");
}

#[test]
fn show_prints_entries_separated_by_blank_lines() {
    let mut config = Config::new();
    config.insert(
        "network".into(),
        vec![entry("ip addr", "show IP"), entry("ss -tulpn", "show ports")],
    );
    assert_eq!(
        show(&config, "network").ok().unwrap(),
        "ip addr\n  show IP\n\nss -tulpn\n  show ports\n"
    );
    config.insert("empty".into(), vec![]);
    assert_eq!(show(&config, "empty").ok().unwrap(), "");
}

#[test]
fn show_reports_a_missing_or_invalid_category() {
    let config = Config::new();
    match show(&config, "docker") {
        Err(e) => assert_eq!(
            e.0,
            "category \"docker\" does not exist.\nRun `cmdnavi list` to see your categories. To create it, use `cmdnavi add docker` or `cmdnavi edit docker`."
        ),
        Ok(_) => panic!("expected an error"),
    }
    match show(&config, "list") {
        Err(e) => assert!(e.0.contains("is reserved")),
        Ok(_) => panic!("expected an error"),
    }
}

#[test]
fn list_prints_names_in_order() {
    let mut config = Config::new();
    config.insert("network".into(), vec![]);
    config.insert("docker".into(), vec![]);
    config.insert("git".into(), vec![]);
    assert_eq!(list(&config), "docker\ngit\nnetwork\n");
    assert_eq!(list(&Config::new()), "");
}

#[test]
fn add_reports_each_problem_and_leaves_the_configuration() {
    let mut config = Config::new();
    let error = add(&mut config, "bad name", "x".into(), "y".into()).err().unwrap();
    assert!(error.0.contains("contains characters that cannot be used"));
    let error = add(&mut config, "network", "  ".into(), "y".into()).err().unwrap();
    assert_eq!(error.0, "the command was not added because command is empty.\nEnter the command text you want to save and try again.");
    let error = add(&mut config, "network", "ip".into(), "\t".into()).err().unwrap();
    assert_eq!(error.0, "the command was not added because description is empty.\nEnter a short explanation of what the command does and try again.");
    assert!(config.is_empty());
    assert!(check_command("").is_err());
    assert!(check_command("ls").is_ok());
    assert!(check_description("\u{3000}").is_err());
    assert!(check_description("lists").is_ok());
}

#[test]
fn add_to_an_existing_category_appends() {
    let mut config = Config::new();
    assert!(add(&mut config, "git", "git status".into(), "state".into()).ok().unwrap());
    assert!(!add(&mut config, "git", "git log".into(), "history".into()).ok().unwrap());
    assert_eq!(
        commands(&config, "git"),
        vec![
            ("git status".to_string(), "state".to_string()),
            ("git log".to_string(), "history".to_string())
        ]
    );
}

#[test]
fn add_report_mentions_a_created_category() {
    assert_eq!(
        add_report("network", true),
        "Category \"network\" does not exist.\nCreated category \"network\".\nAdded command to \"network\".\n"
    );
    assert_eq!(add_report("network", false), "Added command to \"network\".\n");
}

#[test]
fn read_line_strips_line_endings_and_reports_missing_input() {
    assert_eq!(read_line(Some("ip addr\r\n".into())).ok().unwrap(), "ip addr");
    assert_eq!(read_line(Some("a\rb\n\r\n".into())).ok().unwrap(), "a\rb");
    assert_eq!(read_line(Some("  x  ".into())).ok().unwrap(), "  x  ");
    assert_eq!(
        read_line(None).err().unwrap().0,
        "the operation stopped because an input value is missing.\nProvide every requested value, or run the command interactively."
    );
}

#[test]
fn remove_choices_numbers_the_commands() {
    let mut config = Config::new();
    config.insert(
        "network".into(),
        vec![entry("ip addr", "show IP"), entry("ss -tulpn", "show ports")],
    );
    assert_eq!(
        remove_choices(&config, "network").ok().unwrap(),
        "[1] ip addr\n    show IP\n\n[2] ss -tulpn\n    show ports\n\n"
    );
    assert_eq!(
        remove_choices(&config, "docker").err().unwrap().0,
        "nothing was removed because category \"docker\" does not exist.\nRun `cmdnavi list` and choose one of your existing categories."
    );
    config.insert("empty".into(), vec![]);
    assert_eq!(
        remove_choices(&config, "empty").err().unwrap().0,
        "category \"empty\" has no commands to remove.\nAdd one with `cmdnavi add empty` first."
    );
}

#[test]
fn parse_selection_accepts_only_listed_numbers() {
    assert_eq!(parse_selection(" 2 ", 3).ok().unwrap(), 2);
    assert_eq!(parse_selection("+3", 3).ok().unwrap(), 3);
    assert_eq!(
        parse_selection("two", 3).err().unwrap().0,
        "nothing was removed because the selection is not a number.\nEnter one of the item numbers shown above."
    );
    assert!(parse_selection("-1", 3).is_err());
    assert!(parse_selection("", 3).is_err());
    assert_eq!(
        parse_selection("0", 3).err().unwrap().0,
        "nothing was removed because 0 is outside the available range (1-3).\nEnter a number between 1 and 3."
    );
    assert_eq!(
        parse_selection("12", 3).err().unwrap().0,
        "nothing was removed because 12 is outside the available range (1-3).\nEnter a number between 1 and 3."
    );
    assert!(parse_selection("99999999999999999999999", 3).err().unwrap().0.contains("not a number"));
}

#[test]
fn only_y_confirms_a_removal() {
    assert!(is_confirmed("y"));
    assert!(is_confirmed("Y"));
    assert!(!is_confirmed("N"));
    assert!(!is_confirmed(""));
    assert!(!is_confirmed("yes"));
    assert!(!is_confirmed(" y"));
    assert_eq!(confirmation_prompt("ip addr"), "Remove \"ip addr\"? [y/N]: ");
    assert_eq!(removed_report("ip addr", "network"), "Removed \"ip addr\" from \"network\".\n");
}

#[test]
fn remove_refuses_a_category_that_changed_meanwhile() {
    let mut config = Config::new();
    config.insert("network".into(), vec![entry("ip addr", "show IP")]);
    let menu = config.get("network").unwrap().clone();
    config.insert(
        "network".into(),
        vec![entry("ip addr", "show IP"), entry("ss", "ports")],
    );
    let error = remove(&mut config, "network", &menu, 1).err().unwrap();
    assert_eq!(
        error.0,
        "nothing was removed because category \"network\" changed while you were choosing an item.\nRun `cmdnavi remove network` again and choose from the updated list."
    );
    assert_eq!(config.get("network").unwrap().len(), 2);
    let mut emptied = Config::new();
    assert!(remove(&mut emptied, "network", &menu, 1).is_err());
}
