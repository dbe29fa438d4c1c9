//! Editing the configuration in a text editor: which editor runs, what the
//! edit file starts with, what to do with an invalid edit, and how an edit
//! is saved without losing a change made meanwhile.
use vstd::prelude::*;

use crate::model::{
    entries_model, entries_equal, entries_problem, join3, lookup, updated, validate_entries,
    CommandEntry, Config, EntryModel,
};
use crate::config::{effectively_empty, is_effectively_empty};
use crate::text::{concat, is_blank, is_blank_str, owned, str_eq, trim, trim_str};
use crate::Error;

verus! {

pub const FULL_EDIT_TEMPLATE: &'static str = "# cmdnavi configuration\n# Add a category and command by removing the leading '#' characters.\n# Both command and description are required.\n# network:\n#   - command: ip addr\n#     description: IPアドレスを確認する\n";

pub const CATEGORY_EDIT_TEMPLATE: &'static str = "# Add a command by removing the leading '#' characters.\n# Both command and description are required.\n# - command: ip addr\n#   description: IPアドレスを確認する\n";

pub const DEFAULT_EDITOR: &'static str = "vi";

pub const PARSE_ERROR_TEXT: &'static str = "missing closing quote";

#[verifier::external_type_specification]
#[verifier::external_body]
pub struct ExParseError(shell_words::ParseError);

/// The words that `shell_words::split` makes of a text, or `None` where it
/// fails.
pub uninterp spec fn shell_split(s: Seq<char>) -> Option<Seq<Seq<char>>>;

/// The texts of a list of strings.
pub open spec fn strings_model(v: Seq<String>) -> Seq<Seq<char>> {
    v.map_values(|w: String| w@)
}

/// A single word for the shell: not empty, not a comment, and without
/// quotes, backslashes, spaces, tabs or line feeds.
pub open spec fn is_plain_word(s: Seq<char>) -> bool {
    &&& s.len() > 0
    &&& s[0] != '#'
    &&& forall|i: int|
        0 <= i < s.len() ==> !(#[trigger] s[i] == '\'' || s[i] == '"' || s[i] == '\\' || s[i]
            == ' ' || s[i] == '\t' || s[i] == '\n')
}

/// `shell_words::split`: splits a command line into words as a Unix shell
/// would, with quote removal. Its result is named `shell_split` of the text;
/// the contract claims that `Ok` comes exactly where `shell_split` gives
/// words, and that they are those words, and that a plain word (see
/// `is_plain_word`) is split into itself alone, as the function's state
/// machine shows: such a word never leaves its unquoted-word state.
#[verifier::external_body]
fn split_words(s: &str) -> (r: core::result::Result<Vec<String>, shell_words::ParseError>)
    ensures
        match r {
            Ok(v) => shell_split(s@) == Some(strings_model(v@)),
            Err(_) => shell_split(s@) is None,
        },
        r is Ok || !is_plain_word(s@),
        r matches Ok(v) ==> (is_plain_word(s@) ==> strings_model(v@) == seq![s@]),
{
    shell_words::split(s)
}

/// The text of a `shell_words::ParseError`: its `Display` implementation
/// writes the fixed text "missing closing quote", which the contract claims.
#[verifier::external_body]
fn parse_error_text(e: &shell_words::ParseError) -> (r: String)
    ensures
        r@ == PARSE_ERROR_TEXT@,
{
    format!("{e}")
}

/// The editor setting that is used: `$VISUAL` unless it is missing or blank,
/// then `$EDITOR` on the same terms, then `vi`.
pub open spec fn chosen_editor(visual: Option<Seq<char>>, editor: Option<Seq<char>>) -> Seq<
    char,
> {
    match visual {
        Some(v) if !is_blank(v) => v,
        _ => match editor {
            Some(e) if !is_blank(e) => e,
            _ => DEFAULT_EDITOR@,
        },
    }
}

/// Chooses the editor setting from `$VISUAL` and `$EDITOR`.
pub fn editor_setting(visual: Option<String>, editor: Option<String>) -> (r: String)
    ensures
        r@ == chosen_editor(visual.deep_view(), editor.deep_view()),
{
    match visual {
        Some(v) => {
            if !is_blank_str(v.as_str()) {
                return v;
            }
        },
        None => {},
    }
    match editor {
        Some(e) => {
            if !is_blank_str(e.as_str()) {
                return e;
            }
        },
        None => {},
    }
    owned(DEFAULT_EDITOR)
}

pub open spec fn invalid_setting_message() -> Seq<char> {
    "the editor setting is invalid.\nCorrect $VISUAL or $EDITOR, or unset it to use vi.\n\nTechnical message: "@
        + PARSE_ERROR_TEXT@
}

pub open spec fn no_editor_message() -> Seq<char> {
    "no editor command was provided.\nUnset $VISUAL or $EDITOR to use vi."@
}

/// The program and its arguments that the words of an editor setting name:
/// the first word is the program.
pub open spec fn invocation(split: Option<Seq<Seq<char>>>) -> Result<
    (Seq<char>, Seq<Seq<char>>),
    Seq<char>,
> {
    match split {
        None => Err(invalid_setting_message()),
        Some(ws) => if ws.len() == 0 {
            Err(no_editor_message())
        } else {
            Ok((ws[0], ws.drop_first()))
        },
    }
}

/// The program to run and its arguments, from the words of an editor
/// setting as `shell_words::split` gave them.
pub fn editor_invocation(split: core::result::Result<Vec<String>, shell_words::ParseError>) -> (r:
    Result<(String, Vec<String>), Error>)
    ensures
        match r {
            Ok((program, args)) => invocation(
                match split {
                    Ok(v) => Some(strings_model(v@)),
                    Err(_) => None,
                },
            ) == Ok::<_, Seq<char>>((program@, strings_model(args@))),
            Err(e) => invocation(
                match split {
                    Ok(v) => Some(strings_model(v@)),
                    Err(_) => None,
                },
            ) == Err::<(Seq<char>, Seq<Seq<char>>), _>(e.0@),
        },
{
    let mut words = match split {
        Ok(v) => v,
        Err(e) => {
            let text = parse_error_text(&e);
            return Err(
                Error(
                    concat(
                        "the editor setting is invalid.\nCorrect $VISUAL or $EDITOR, or unset it to use vi.\n\nTechnical message: ",
                        text.as_str(),
                    ),
                ),
            );
        },
    };
    if words.len() == 0 {
        return Err(
            Error(owned("no editor command was provided.\nUnset $VISUAL or $EDITOR to use vi.")),
        );
    }
    let ghost ws = words@;
    let program = words.remove(0);
    assert(strings_model(words@) =~= strings_model(ws).drop_first());
    Ok((program, words))
}

/// The program to run as the editor and its arguments (the edit file goes
/// after them), from `$VISUAL` and `$EDITOR`.
pub fn editor_command(visual: Option<String>, editor: Option<String>) -> (r: Result<
    (String, Vec<String>),
    Error,
>)
    ensures
        match r {
            Ok((program, args)) => invocation(
                shell_split(chosen_editor(visual.deep_view(), editor.deep_view())),
            ) == Ok::<_, Seq<char>>((program@, strings_model(args@))),
            Err(e) => invocation(shell_split(chosen_editor(visual.deep_view(), editor.deep_view())))
                == Err::<(Seq<char>, Seq<Seq<char>>), _>(e.0@),
        },
        is_plain_word(chosen_editor(visual.deep_view(), editor.deep_view())) ==> (r matches Ok(
            (program, args),
        ) && program@ == chosen_editor(visual.deep_view(), editor.deep_view()) && args@.len() == 0),
        chosen_editor(visual.deep_view(), editor.deep_view()) == DEFAULT_EDITOR@ ==> (r matches Ok(
            (program, args),
        ) && program@ == DEFAULT_EDITOR@ && args@.len() == 0),
{
    let setting = editor_setting(visual, editor);
    proof {
        reveal_strlit("vi");
        assert(DEFAULT_EDITOR@ =~= seq!['v', 'i']);
        assert(is_plain_word(DEFAULT_EDITOR@));
    }
    let split = split_words(setting.as_str());
    proof {
        if is_plain_word(setting@) {
            assert(shell_split(setting@) == Some(seq![setting@]));
            assert(seq![setting@].drop_first() =~= Seq::<Seq<char>>::empty());
        }
    }
    editor_invocation(split)
}

pub open spec fn editor_failed_message(error: Seq<char>, edit_file: Seq<char>) -> Seq<char> {
    error + "\n\nThe configuration was not changed.\nTemporary edit file: "@ + edit_file
}

pub open spec fn invalid_yaml_message(edit_file: Seq<char>, detail: Seq<char>) -> Seq<char> {
    "the changes were not saved because the edited YAML is invalid.\nChoose Y below to reopen the same file, then correct the YAML and save it.\n\nYour edits are still here:\n  "@
        + edit_file + "\n\nYAML message: "@ + detail
}

pub open spec fn edit_conflict_message(edit_file: Seq<char>) -> Seq<char> {
    "the changes were not saved because the configuration changed while the editor was open.\nReview the latest configuration, run the edit command again, and merge your changes.\n\nYour edited copy is still here:\n  "@
        + edit_file
}

/// The error of an edit file whose contents are not a valid configuration.
pub fn invalid_yaml(edit_file: &str, detail: &str) -> (e: Error)
    ensures
        e.0@ == invalid_yaml_message(edit_file@, detail@),
{
    let mut m = join3(
        "the changes were not saved because the edited YAML is invalid.\nChoose Y below to reopen the same file, then correct the YAML and save it.\n\nYour edits are still here:\n  ",
        edit_file,
        "\n\nYAML message: ",
    );
    m.append(detail);
    Error(m)
}

/// The error of an edit made while the configuration changed.
pub fn edit_conflict(edit_file: &str) -> (e: Error)
    ensures
        e.0@ == edit_conflict_message(edit_file@),
{
    Error(
        concat(
            "the changes were not saved because the configuration changed while the editor was open.\nReview the latest configuration, run the edit command again, and merge your changes.\n\nYour edited copy is still here:\n  ",
            edit_file,
        ),
    )
}

/// The error of an editor that failed, with where the edit file is.
pub fn editor_failed(error: &Error, edit_file: &str) -> (e: Error)
    ensures
        e.0@ == editor_failed_message(error.0@, edit_file@),
{
    let mut m = concat(error.0.as_str(), "\n\nThe configuration was not changed.\nTemporary edit file: ");
    m.append(edit_file);
    Error(m)
}

/// Checks the commands read from a category's edit file; the first
/// problem is reported as invalid YAML.
pub fn check_edited_entries(entries: &Vec<CommandEntry>, edit_file: &str) -> (r: Result<(), Error>)
    ensures
        match r {
            Ok(()) => entries_problem(entries_model(entries@)) is None,
            Err(e) => entries_problem(entries_model(entries@)) matches Some(p) && e.0@
                == invalid_yaml_message(edit_file@, p),
        },
{
    match validate_entries(entries) {
        Ok(()) => Ok(()),
        Err(p) => Err(invalid_yaml(edit_file, p)),
    }
}

/// The commands that a category's edit file holds, from what YAML made of
/// its text (or the YAML error): a text without settings holds none; any
/// other must have parsed, and its commands must be valid. Problems are
/// reported as invalid YAML.
pub fn edited_entries(
    contents: &str,
    parsed: Result<Vec<CommandEntry>, String>,
    edit_file: &str,
) -> (r: Result<Vec<CommandEntry>, Error>)
    ensures
        effectively_empty(contents@) ==> (r matches Ok(v) && v@.len() == 0),
        !effectively_empty(contents@) ==> match parsed {
            Err(d) => r matches Err(e) && e.0@ == invalid_yaml_message(edit_file@, d@),
            Ok(es) => match entries_problem(entries_model(es@)) {
                Some(p) => r matches Err(e) && e.0@ == invalid_yaml_message(edit_file@, p),
                None => r matches Ok(v) && v@ == es@,
            },
        },
{
    if is_effectively_empty(contents) {
        return Ok(Vec::new());
    }
    let entries = match parsed {
        Err(d) => {
            return Err(invalid_yaml(edit_file, d.as_str()));
        },
        Ok(es) => es,
    };
    match check_edited_entries(&entries, edit_file) {
        Err(e) => Err(e),
        Ok(()) => Ok(entries),
    }
}

/// What to do with an edit file whose contents are invalid.
#[derive(PartialEq, Eq, Structural, Clone, Copy, Debug)]
pub enum InvalidEditDecision {
    /// Open the same file again.
    Retry,
    /// Stop without an error, leaving the configuration as it was.
    Cancel,
    /// Stop with the error of the invalid edit.
    Abort,
}

/// How a round of editing went.
pub enum EditRound<T> {
    /// The editor failed.
    EditorFailed(Error),
    /// The edited file holds a valid value.
    Parsed(T),
    /// The edited file is invalid, and this is what to do about it.
    Invalid(Error, InvalidEditDecision),
}

/// What follows a round of editing.
pub enum EditNext<T> {
    /// Open the editor on the same file again.
    Reopen,
    /// Stop: with the edited value, with nothing (cancelled), or with an error.
    Finish(Result<Option<T>, Error>),
}

/// Decides what follows a round of editing.
pub fn edit_until_valid<T>(round: EditRound<T>, edit_file: &str) -> (r: EditNext<T>)
    ensures
        match round {
            EditRound::EditorFailed(e) => r matches EditNext::Finish(Err(f)) && f.0@
                == editor_failed_message(e.0@, edit_file@),
            EditRound::Parsed(v) => r matches EditNext::Finish(Ok(Some(w))) && w == v,
            EditRound::Invalid(e, d) => match d {
                InvalidEditDecision::Retry => r is Reopen,
                InvalidEditDecision::Cancel => r matches EditNext::Finish(Ok(None)),
                InvalidEditDecision::Abort => r matches EditNext::Finish(Err(f)) && f == e,
            },
        },
{
    match round {
        EditRound::EditorFailed(e) => EditNext::Finish(Err(editor_failed(&e, edit_file))),
        EditRound::Parsed(v) => EditNext::Finish(Ok(Some(v))),
        EditRound::Invalid(e, d) => match d {
            InvalidEditDecision::Retry => EditNext::Reopen,
            InvalidEditDecision::Cancel => EditNext::Finish(Ok(None)),
            InvalidEditDecision::Abort => EditNext::Finish(Err(e)),
        },
    }
}

pub open spec fn retry_question_text(error: Seq<char>) -> Seq<char> {
    "\n"@ + error + "\n"@ + "\nOpen the same file again? [Y/n]: "@
}

pub open spec fn stopped_message(edit_file: Seq<char>, resume_command: Seq<char>) -> Seq<char> {
    "Editing stopped. To recover later, open "@ + edit_file
        + " and copy the corrected contents into `"@ + resume_command + "`.\n"@
}

pub open spec fn ask_again_text() -> Seq<char> {
    "Please enter Y to reopen the file or N to stop: "@
}

/// What the prompt shows about an invalid edit before the first answer.
pub fn retry_question(error: &Error) -> (r: String)
    ensures
        r@ == retry_question_text(error.0@),
{
    let mut r = join3("\n", error.0.as_str(), "\n");
    r.append("\nOpen the same file again? [Y/n]: ");
    r
}

/// The decision for an answer to the prompt about an invalid edit (`None`
/// for the end of the input), with the text to show; no decision means the
/// question is asked again. An empty answer or `y` reopens the file, `n`
/// stops, both in either case and with surrounding whitespace ignored; the
/// end of the input stops with the error.
pub fn prompt_to_retry(answer: Option<&str>, edit_file: &str, resume_command: &str) -> (r: (
    Option<InvalidEditDecision>,
    String,
))
    ensures
        match answer {
            None => r.0 == Some(InvalidEditDecision::Abort) && r.1@ == stopped_message(
                edit_file@,
                resume_command@,
            ),
            Some(a) => {
                let t = trim(a@);
                if t.len() == 0 || t == "y"@ || t == "Y"@ {
                    r.0 == Some(InvalidEditDecision::Retry) && r.1@.len() == 0
                } else if t == "n"@ || t == "N"@ {
                    r.0 == Some(InvalidEditDecision::Cancel) && r.1@ == stopped_message(
                        edit_file@,
                        resume_command@,
                    )
                } else {
                    r.0 is None && r.1@ == ask_again_text()
                }
            },
        },
{
    let stopped = || -> (m: String)
        ensures
            m@ == stopped_message(edit_file@, resume_command@),
        {
            let mut m = join3(
                "Editing stopped. To recover later, open ",
                edit_file,
                " and copy the corrected contents into `",
            );
            m.append(resume_command);
            m.append("`.\n");
            m
        };
    match answer {
        None => (Some(InvalidEditDecision::Abort), stopped()),
        Some(a) => {
            let t = trim_str(a);
            let t = t.as_str();
            if t.is_empty() || str_eq(t, "y") || str_eq(t, "Y") {
                (Some(InvalidEditDecision::Retry), String::new())
            } else if str_eq(t, "n") || str_eq(t, "N") {
                (Some(InvalidEditDecision::Cancel), stopped())
            } else {
                (None, owned("Please enter Y to reopen the file or N to stop: "))
            }
        },
    }
}

/// The template that the edit file of the whole configuration starts with,
/// where the configuration is empty; otherwise the file starts with the
/// configuration itself.
pub fn full_edit_template(original: &Config) -> (r: Option<&'static str>)
    ensures
        r == (if original@.len() == 0 {
            Some(FULL_EDIT_TEMPLATE)
        } else {
            None
        }),
{
    if original.is_empty() {
        Some(FULL_EDIT_TEMPLATE)
    } else {
        None
    }
}

/// Whether a full edit leaves nothing to save: there was no configuration
/// and the edit holds none.
pub fn full_edit_changes_nothing(original: &Config, edited: &Config) -> (r: bool)
    ensures
        r == (original@.len() == 0 && edited@.len() == 0),
{
    original.is_empty() && edited.is_empty()
}

/// Saves a full edit into the configuration as it is now, provided it is
/// still the configuration that was edited; otherwise it is left as it is.
pub fn edit_all(current: &mut Config, original: &Config, edited: Config, edit_file: &str) -> (r:
    Result<(), Error>)
    ensures
        match r {
            Ok(()) => old(current)@ == original@ && final(current)@ == edited@,
            Err(e) => old(current)@ != original@ && final(current)@ == old(current)@ && e.0@
                == edit_conflict_message(edit_file@),
        },
{
    if !current.equals(original) {
        return Err(edit_conflict(edit_file));
    }
    *current = edited;
    Ok(())
}

/// The commands of a category, where it exists.
pub open spec fn entries_option(o: Option<&Vec<CommandEntry>>) -> Option<Seq<EntryModel>> {
    match o {
        Some(v) => Some(entries_model(v@)),
        None => None,
    }
}

/// The template that the edit file of a category starts with, where the
/// category is missing or empty; otherwise the file starts with its
/// commands.
pub fn category_edit_template(original: Option<&Vec<CommandEntry>>) -> (r: Option<&'static str>)
    ensures
        r == (match original {
            Some(v) if v@.len() > 0 => None,
            _ => Some(CATEGORY_EDIT_TEMPLATE),
        }),
{
    match original {
        Some(v) => {
            if v.len() > 0 {
                None
            } else {
                Some(CATEGORY_EDIT_TEMPLATE)
            }
        },
        None => Some(CATEGORY_EDIT_TEMPLATE),
    }
}

/// Whether a category edit leaves nothing to save: the category did not
/// exist and the edit holds no command.
pub fn category_edit_changes_nothing(original: Option<&Vec<CommandEntry>>, edited: &Vec<CommandEntry>) -> (r: bool)
    ensures
        r == (original is None && edited@.len() == 0),
{
    original.is_none() && edited.len() == 0
}

/// Saves a category edit into the configuration as it is now, provided the
/// category still is what was edited (missing, or with the same commands);
/// other categories keep whatever they hold now. Otherwise the
/// configuration is left as it is.
pub fn edit_category(
    current: &mut Config,
    category: &str,
    original: Option<&Vec<CommandEntry>>,
    edited: Vec<CommandEntry>,
    edit_file: &str,
) -> (r: Result<(), Error>)
    ensures
        match r {
            Ok(()) => {
                &&& lookup(old(current)@, category@) == entries_option(original)
                &&& updated(old(current)@, final(current)@, category@, entries_model(edited@))
            },
            Err(e) => {
                &&& lookup(old(current)@, category@) != entries_option(original)
                &&& final(current)@ == old(current)@
                &&& e.0@ == edit_conflict_message(edit_file@)
            },
        },
{
    let unchanged = match (current.get(category), original) {
        (Some(now), Some(before)) => entries_equal(now, before),
        (None, None) => true,
        _ => false,
    };
    if !unchanged {
        return Err(edit_conflict(edit_file));
    }
    current.insert(owned(category), edited);
    Ok(())
}

} // verus!
