use cmdnavi::config::{is_effectively_empty, parse};
use cmdnavi::editor::{
    category_edit_changes_nothing, category_edit_template, check_edited_entries, edit_all,
    edit_category, edit_conflict, edited_entries, edit_until_valid, editor_command, editor_invocation,
    editor_setting, full_edit_changes_nothing, full_edit_template, invalid_yaml, prompt_to_retry,
    retry_question, EditNext, EditRound, InvalidEditDecision, CATEGORY_EDIT_TEMPLATE,
    FULL_EDIT_TEMPLATE,
};
use cmdnavi::model::{CommandEntry, Config};
use cmdnavi::Error;

const EDIT_FILE: &str = "/tmp/cmdnavi-edit-1-2.yaml";

fn entry(command: &str) -> CommandEntry {
    CommandEntry {
        command: command.into(),
        description: "description".into(),
    }
}

fn described(command: &str, description: &str) -> CommandEntry {
    CommandEntry {
        command: command.into(),
        description: description.into(),
    }
}

fn finished<T>(next: EditNext<T>) -> Result<Option<T>, Error> {
    match next {
        EditNext::Finish(result) => result,
        EditNext::Reopen => panic!("expected the editing to stop"),
    }
}

#[test]
fn category_edit_preserves_other_categories() {
    let mut original = Config::new();
    original.insert("network".into(), vec![entry("old")]);
    original.insert("docker".into(), vec![entry("docker ps")]);
    let shown = original.get("network").cloned();
    let mut current = Config::new();
    current.insert("network".into(), vec![entry("old")]);
    current.insert("docker".into(), vec![entry("docker ps")]);
    edit_category(
        &mut current,
        "network",
        shown.as_ref(),
        vec![described("new", "changed")],
        EDIT_FILE,
    )
    .ok()
    .unwrap();
    assert_eq!(current.get("network").unwrap()[0].command, "new");
    assert_eq!(current.get("docker").unwrap()[0].command, "docker ps");
}

#[test]
fn invalid_category_edit_does_not_modify_config() {
    let mut original = Config::new();
    original.insert("network".into(), vec![entry("old")]);
    let mut config = Config::new();
    config.insert("network".into(), vec![entry("old")]);
    let round = match edited_entries("not: [valid", Err("did not find expected ',' or ']'".into()), EDIT_FILE) {
        Ok(entries) => EditRound::Parsed(entries),
        Err(error) => EditRound::Invalid(error, InvalidEditDecision::Abort),
    };
    match finished(edit_until_valid(round, EDIT_FILE)) {
        Ok(Some(entries)) => {
            edit_category(&mut config, "network", original.get("network"), entries, EDIT_FILE)
                .ok()
                .unwrap();
        }
        Ok(None) => {}
        Err(_) => {}
    }
    assert!(config.equals(&original));
}

#[test]
fn invalid_full_edit_does_not_modify_config() {
    let mut original = Config::new();
    original.insert("network".into(), vec![entry("ip addr")]);
    let mut config = Config::new();
    config.insert("network".into(), vec![entry("ip addr")]);
    let round = match parse("network: [broken", Err("did not find expected ',' or ']'".into())) {
        Ok(edited) => EditRound::Parsed(edited),
        Err(detail) => EditRound::Invalid(invalid_yaml(EDIT_FILE, &detail), InvalidEditDecision::Abort),
    };
    let error = match finished(edit_until_valid(round, EDIT_FILE)) {
        Ok(Some(edited)) => {
            edit_all(&mut config, &original, edited, EDIT_FILE).ok().unwrap();
            panic!("expected an error")
        }
        Ok(None) => panic!("expected an error"),
        Err(error) => error.0,
    };
    assert!(error.contains("changes were not saved"));
    assert!(error.contains("Choose Y below to reopen"));
    assert!(error.contains("Your edits are still here:"));
    assert!(config.equals(&original));
}

#[test]
fn category_edit_detects_a_concurrent_change() {
    let mut original = Config::new();
    original.insert("network".into(), vec![entry("original")]);
    let shown = original.get("network").cloned();
    let mut current = Config::new();
    current.insert("network".into(), vec![entry("concurrent")]);
    let error = edit_category(
        &mut current,
        "network",
        shown.as_ref(),
        vec![described("edited", "edited")],
        EDIT_FILE,
    )
    .err()
    .unwrap()
    .0;
    assert!(error.contains("configuration changed while the editor was open"));
    assert!(error.contains("Review the latest configuration"));
    assert!(error.contains("Your edited copy is still here:"));
    assert_eq!(current.get("network").unwrap()[0].command, "concurrent");
}

#[test]
fn editing_a_missing_category_shows_a_template_and_creates_nothing_if_unchanged() {
    let config = Config::new();
    let template = category_edit_template(config.get("network")).unwrap();
    assert!(template.contains("# - command: ip addr"));
    assert!(is_effectively_empty(template));
    assert!(category_edit_changes_nothing(config.get("network"), &vec![]));
}

#[test]
fn editing_a_missing_category_creates_it_when_an_entry_is_added() {
    let mut current = Config::new();
    let edited = vec![described("ip addr", "show IP")];
    assert!(!category_edit_changes_nothing(None, &edited));
    edit_category(&mut current, "network", None, edited, EDIT_FILE).ok().unwrap();
    assert_eq!(current.get("network").unwrap()[0].command, "ip addr");
}

#[test]
fn a_command_without_a_description_does_not_create_a_category() {
    let mut config = Config::new();
    let error = edited_entries(
        "- command: ip addr\n",
        Err("missing field `description`".into()),
        EDIT_FILE,
    )
    .err()
    .unwrap();
    let message = match finished(edit_until_valid::<Vec<CommandEntry>>(
        EditRound::Invalid(error, InvalidEditDecision::Abort),
        EDIT_FILE,
    )) {
        Ok(Some(entries)) => {
            edit_category(&mut config, "network", None, entries, EDIT_FILE).ok().unwrap();
            panic!("expected an error")
        }
        Ok(None) => panic!("expected an error"),
        Err(error) => error.0,
    };
    assert!(message.contains("edited YAML is invalid"));
    assert!(message.contains("Choose Y below to reopen"));
    assert!(message.contains("Your edits are still here:"));
    assert!(!config.contains_key("network"));
    let blank = check_edited_entries(&vec![described("ip addr", "")], EDIT_FILE).err().unwrap();
    assert!(blank.0.contains("description must not be empty"));
}

#[test]
fn first_full_edit_shows_a_template_and_creates_nothing_if_unchanged() {
    let original = Config::new();
    let template = full_edit_template(&original).unwrap();
    assert!(template.contains("# network:"));
    assert!(is_effectively_empty(template));
    assert!(full_edit_changes_nothing(&original, &Config::new()));
}

#[test]
fn invalid_yaml_can_be_fixed_by_reopening_the_same_edit_file() {
    let error = invalid_yaml(EDIT_FILE, "missing field `description`");
    assert!(retry_question(&error).contains("Open the same file again?"));
    let (decision, text) = prompt_to_retry(Some("\n"), EDIT_FILE, "cmdnavi edit network");
    assert_eq!(decision, Some(InvalidEditDecision::Retry));
    assert_eq!(text, "");
    let next = edit_until_valid::<Vec<CommandEntry>>(
        EditRound::Invalid(error, InvalidEditDecision::Retry),
        EDIT_FILE,
    );
    assert!(matches!(next, EditNext::Reopen));
    let value = finished(edit_until_valid(
        EditRound::Parsed(vec![described("ip addr", "show IP")]),
        EDIT_FILE,
    ))
    .ok()
    .unwrap()
    .unwrap();
    assert_eq!(value[0].command, "ip addr");
}

#[test]
fn declining_to_reopen_is_a_successful_cancellation() {
    let (decision, text) = prompt_to_retry(Some("maybe\n"), EDIT_FILE, "cmdnavi edit network");
    assert_eq!(decision, None);
    assert!(text.contains("Please enter Y"));
    let (decision, text) = prompt_to_retry(Some("n\n"), EDIT_FILE, "cmdnavi edit network");
    assert_eq!(decision, Some(InvalidEditDecision::Cancel));
    assert!(text.contains("Editing stopped"));
    let error = invalid_yaml(EDIT_FILE, "missing field `description`");
    let result = finished(edit_until_valid::<Vec<CommandEntry>>(
        EditRound::Invalid(error, InvalidEditDecision::Cancel),
        EDIT_FILE,
    ));
    assert!(matches!(result, Ok(None)));
}

#[test]
fn prompt_answers() {
    for answer in ["", "y", "Y", "  y \r\n"] {
        assert_eq!(prompt_to_retry(Some(answer), EDIT_FILE, "r").0, Some(InvalidEditDecision::Retry));
    }
    for answer in ["n", "N\n", " n "] {
        assert_eq!(prompt_to_retry(Some(answer), EDIT_FILE, "r").0, Some(InvalidEditDecision::Cancel));
    }
    let (decision, text) = prompt_to_retry(None, EDIT_FILE, "cmdnavi edit");
    assert_eq!(decision, Some(InvalidEditDecision::Abort));
    assert_eq!(
        text,
        format!("Editing stopped. To recover later, open {EDIT_FILE} and copy the corrected contents into `cmdnavi edit`.\n")
    );
    assert_eq!(prompt_to_retry(Some("yes"), EDIT_FILE, "r").1, "Please enter Y to reopen the file or N to stop: ");
    assert_eq!(
        retry_question(&Error("bad".into())),
        "\nbad\n\nOpen the same file again? [Y/n]: "
    );
}

#[test]
fn an_editor_failure_stops_with_the_edit_file() {
    let error = finished(edit_until_valid::<Config>(
        EditRound::EditorFailed(Error("the editor closed with an error.".into())),
        EDIT_FILE,
    ))
    .err()
    .unwrap()
    .0;
    assert_eq!(
        error,
        format!("the editor closed with an error.\n\nThe configuration was not changed.\nTemporary edit file: {EDIT_FILE}")
    );
}

#[test]
fn full_edit_saves_only_over_the_edited_configuration() {
    let mut original = Config::new();
    original.insert("network".into(), vec![entry("ip addr")]);
    let mut current = Config::new();
    current.insert("network".into(), vec![entry("ip addr")]);
    let mut edited = Config::new();
    edited.insert("git".into(), vec![entry("git log")]);
    edit_all(&mut current, &original, edited, EDIT_FILE).ok().unwrap();
    assert!(current.get("network").is_none());
    assert_eq!(current.get("git").unwrap()[0].command, "git log");

    let mut changed = Config::new();
    changed.insert("docker".into(), vec![]);
    let error = edit_all(&mut changed, &original, Config::new(), EDIT_FILE).err().unwrap();
    assert_eq!(error.0, edit_conflict(EDIT_FILE).0);
    assert!(changed.contains_key("docker"));
    assert!(full_edit_template(&original).is_none());
    assert!(!full_edit_changes_nothing(&Config::new(), &original));
    assert!(!full_edit_changes_nothing(&original, &Config::new()));
}

#[test]
fn category_templates_only_for_missing_or_empty_categories() {
    let list = vec![entry("x")];
    assert_eq!(category_edit_template(Some(&vec![])), Some(CATEGORY_EDIT_TEMPLATE));
    assert_eq!(category_edit_template(None), Some(CATEGORY_EDIT_TEMPLATE));
    assert_eq!(category_edit_template(Some(&list)), None);
    assert!(!category_edit_changes_nothing(Some(&vec![]), &vec![]));
    assert_eq!(full_edit_template(&Config::new()), Some(FULL_EDIT_TEMPLATE));
}

#[test]
fn the_editor_setting_prefers_visual_then_editor_then_vi() {
    assert_eq!(editor_setting(Some("code --wait".into()), Some("nano".into())), "code --wait");
    assert_eq!(editor_setting(Some("  ".into()), Some("nano".into())), "nano");
    assert_eq!(editor_setting(None, Some("\t".into())), "vi");
    assert_eq!(editor_setting(None, None), "vi");
}

#[test]
fn the_editor_command_is_split_like_a_shell_would() {
    let (program, args) = editor_command(Some("code --wait".into()), None).ok().unwrap();
    assert_eq!(program, "code");
    assert_eq!(args, vec!["--wait".to_string()]);
    let (program, args) = editor_command(None, Some("'my editor' -u \"a b\" c\\ d".into())).ok().unwrap();
    assert_eq!(program, "my editor");
    assert_eq!(args, vec!["-u".to_string(), "a b".to_string(), "c d".to_string()]);
    let (program, args) = editor_command(None, None).ok().unwrap();
    assert_eq!(program, "vi");
    assert!(args.is_empty());
    assert_eq!(
        editor_command(Some("vim 'unclosed".into()), None).err().unwrap().0,
        "the editor setting is invalid.\nCorrect $VISUAL or $EDITOR, or unset it to use vi.\n\nTechnical message: missing closing quote"
    );
    assert_eq!(
        editor_command(Some("# only a comment".into()), None).err().unwrap().0,
        "no editor command was provided.\nUnset $VISUAL or $EDITOR to use vi."
    );
}

#[test]
fn editor_invocation_takes_the_first_word_as_the_program() {
    let (program, args) = editor_invocation(Ok(vec!["emacs".into(), "-nw".into()])).ok().unwrap();
    assert_eq!(program, "emacs");
    assert_eq!(args, vec!["-nw".to_string()]);
    assert!(editor_invocation(Ok(vec![])).err().unwrap().0.contains("no editor command"));
    assert!(editor_invocation(Err(shell_words::ParseError)).err().unwrap().0.contains("missing closing quote"));
}

#[test]
fn edited_entries_are_checked_in_order() {
    assert!(check_edited_entries(&vec![entry("a"), entry("b")], EDIT_FILE).is_ok());
    assert_eq!(
        check_edited_entries(&vec![described(" ", "x"), described("y", "")], EDIT_FILE)
            .err()
            .unwrap()
            .0,
        format!("the changes were not saved because the edited YAML is invalid.\nChoose Y below to reopen the same file, then correct the YAML and save it.\n\nYour edits are still here:\n  {EDIT_FILE}\n\nYAML message: command must not be empty")
    );
}

#[test]
fn edited_entries_from_the_edit_file() {
    assert!(edited_entries(CATEGORY_EDIT_TEMPLATE, Err("ignored".into()), EDIT_FILE).ok().unwrap().is_empty());
    assert_eq!(
        edited_entries("- x", Err("bad".into()), EDIT_FILE).err().unwrap().0,
        format!("the changes were not saved because the edited YAML is invalid.\nChoose Y below to reopen the same file, then correct the YAML and save it.\n\nYour edits are still here:\n  {EDIT_FILE}\n\nYAML message: bad")
    );
    let entries = edited_entries("- command: a", Ok(vec![described("a", "b")]), EDIT_FILE).ok().unwrap();
    assert_eq!(entries, vec![described("a", "b")]);
    assert!(edited_entries("- command: a", Ok(vec![described("a", " ")]), EDIT_FILE).is_err());
}
