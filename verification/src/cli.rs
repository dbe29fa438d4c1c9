//! The command line: what each invocation asks for, and what the commands
//! show, add and remove.
use vstd::prelude::*;

use crate::model::{
    appended, category_problem, entries_model, join3, lookup, sorted_names, updated,
    validate_category, Category, CategoryModel, CommandEntry, Config, EntryModel,
};
use crate::text::{
    concat, decimal, is_blank, is_blank_str, owned, parse_usize, parse_usize_str, push_decimal,
    str_eq, strip_line_end, strip_line_end_str, trim, trim_str,
};
use crate::Error;

verus! {

pub const HELP: &'static str = "cmdnavi - manage your personal command reference

Usage:
  cmdnavi <category>
  cmdnavi add <category>
  cmdnavi edit [category]
  cmdnavi list
  cmdnavi remove <category>

Commands:
  add       Add a command
  edit      Edit registered commands
  list      List categories
  remove    Remove a command

Options:
  -h, --help       Show help
  -v, --version    Show version
";

pub const VERSION: &'static str = "1.0.0";

pub const COMMAND_PROMPT: &'static str = "Command: ";

pub const DESCRIPTION_PROMPT: &'static str = "Description: ";

pub const SELECTION_PROMPT: &'static str = "Select item to remove: ";

pub const CANCELLED: &'static str = "Cancelled.\n";

/// What an invocation asks cmdnavi to do.
#[derive(PartialEq, Eq, Structural, Clone, Copy, Debug)]
pub enum Action {
    Help,
    Version,
    List,
    EditAll,
    Show,
    Add,
    EditCategory,
    Remove,
}

/// An action, with the category that it concerns where it concerns one.
#[derive(Debug)]
pub struct Request {
    pub action: Action,
    pub category: Option<String>,
}

/// The words of the command line.
pub open spec fn words(args: Seq<String>) -> Seq<Seq<char>> {
    args.map_values(|a: String| a@)
}

pub open spec fn missing_category_message(command: Seq<char>) -> Seq<char> {
    "`"@ + command + "` needs a category.\nAdd a category name as shown below.\n\nUsage:\n  cmdnavi "@
        + command + " <category>"@
}

pub open spec fn unknown_option_message(option: Seq<char>) -> Seq<char> {
    "unknown option \""@ + option
        + "\".\nRun `cmdnavi --help` and choose one of the supported options.\n\n"@ + HELP@
}

pub open spec fn no_arguments_message(command: Seq<char>) -> Seq<char> {
    "command \""@ + command + "\" does not accept arguments\n\n"@ + HELP@
}

pub open spec fn not_understood_message() -> Seq<char> {
    "the command could not be understood.\nPlease use one of the forms shown below.\n\n"@ + HELP@
}

/// What the words of a command line ask for: an action and its category,
/// or the message of the error that the command line is.
pub open spec fn plan(w: Seq<Seq<char>>) -> Result<(Action, Option<Seq<char>>), Seq<char>> {
    if w.len() == 0 {
        Ok((Action::Help, None))
    } else if w.len() == 1 {
        let one = w[0];
        if one == "-h"@ || one == "--help"@ || one == "help"@ {
            Ok((Action::Help, None))
        } else if one == "-v"@ || one == "--version"@ || one == "version"@ {
            Ok((Action::Version, None))
        } else if one == "list"@ {
            Ok((Action::List, None))
        } else if one == "edit"@ {
            Ok((Action::EditAll, None))
        } else if one == "add"@ || one == "remove"@ {
            Err(missing_category_message(one))
        } else if one.len() > 0 && one[0] == '-' {
            Err(unknown_option_message(one))
        } else {
            Ok((Action::Show, Some(one)))
        }
    } else if w.len() == 2 && w[0] == "add"@ {
        Ok((Action::Add, Some(w[1])))
    } else if w.len() == 2 && w[0] == "edit"@ {
        match category_problem(w[1]) {
            Some(p) => Err(p),
            None => Ok((Action::EditCategory, Some(w[1]))),
        }
    } else if w.len() == 2 && w[0] == "remove"@ {
        Ok((Action::Remove, Some(w[1])))
    } else if w[0] == "list"@ || w[0] == "help"@ || w[0] == "version"@ {
        Err(no_arguments_message(w[0]))
    } else {
        Err(not_understood_message())
    }
}

/// Decides what a command line asks for (the arguments after the program
/// name).
pub fn run(args: &Vec<String>) -> (r: Result<Request, Error>)
    ensures
        match r {
            Ok(req) => plan(words(args@)) == Ok::<_, Seq<char>>(
                (req.action, req.category.deep_view()),
            ),
            Err(e) => plan(words(args@)) == Err::<(Action, Option<Seq<char>>), _>(e.0@),
        },
{
    let ghost w = words(args@);
    if args.len() == 0 {
        return Ok(Request { action: Action::Help, category: None });
    }
    let first = args[0].as_str();
    assert(w[0] == first@);
    if args.len() == 1 {
        if str_eq(first, "-h") || str_eq(first, "--help") || str_eq(first, "help") {
            return Ok(Request { action: Action::Help, category: None });
        }
        if str_eq(first, "-v") || str_eq(first, "--version") || str_eq(first, "version") {
            return Ok(Request { action: Action::Version, category: None });
        }
        if str_eq(first, "list") {
            return Ok(Request { action: Action::List, category: None });
        }
        if str_eq(first, "edit") {
            return Ok(Request { action: Action::EditAll, category: None });
        }
        if str_eq(first, "add") || str_eq(first, "remove") {
            return Err(missing_category(first));
        }
        if starts_with_dash(first) {
            let mut m = join3(
                "unknown option \"",
                first,
                "\".\nRun `cmdnavi --help` and choose one of the supported options.\n\n",
            );
            m.append(HELP);
            return Err(Error(m));
        }
        return Ok(Request { action: Action::Show, category: Some(owned(first)) });
    }
    if args.len() == 2 {
        let second = args[1].as_str();
        assert(w[1] == second@);
        if str_eq(first, "add") {
            return Ok(Request { action: Action::Add, category: Some(owned(second)) });
        }
        if str_eq(first, "edit") {
            match validate_category(second) {
                Err(m) => {
                    return Err(Error(m));
                },
                Ok(()) => {},
            }
            return Ok(Request { action: Action::EditCategory, category: Some(owned(second)) });
        }
        if str_eq(first, "remove") {
            return Ok(Request { action: Action::Remove, category: Some(owned(second)) });
        }
    }
    if str_eq(first, "list") || str_eq(first, "help") || str_eq(first, "version") {
        let mut m = join3("command \"", first, "\" does not accept arguments\n\n");
        m.append(HELP);
        return Err(Error(m));
    }
    Err(
        Error(
            concat(
                "the command could not be understood.\nPlease use one of the forms shown below.\n\n",
                HELP,
            ),
        ),
    )
}

fn starts_with_dash(s: &str) -> (r: bool)
    ensures
        r == (s@.len() > 0 && s@[0] == '-'),
{
    let v = crate::text::chars_of(s);
    v.len() > 0 && v[0] == '-'
}

/// The output of `--version`.
pub fn version_line() -> (r: String)
    ensures
        r@ == "cmdnavi "@ + VERSION@ + "\n"@,
{
    join3("cmdnavi ", VERSION, "\n")
}

/// The error of a command that was given no category.
pub fn missing_category(command: &str) -> (e: Error)
    ensures
        e.0@ == missing_category_message(command@),
{
    let mut m = join3(
        "`",
        command,
        "` needs a category.\nAdd a category name as shown below.\n\nUsage:\n  cmdnavi ",
    );
    m.append(command);
    m.append(" <category>");
    Error(m)
}

/// Checks a category name given on the command line.
pub fn checked_category(category: &str) -> (r: Result<(), Error>)
    ensures
        match r {
            Ok(()) => category_problem(category@) is None,
            Err(e) => category_problem(category@) == Some(e.0@),
        },
{
    match validate_category(category) {
        Ok(()) => Ok(()),
        Err(m) => Err(Error(m)),
    }
}

pub open spec fn unknown_category_message(category: Seq<char>) -> Seq<char> {
    "category \""@ + category
        + "\" does not exist.\nRun `cmdnavi list` to see your categories. To create it, use `cmdnavi add "@
        + category + "` or `cmdnavi edit "@ + category + "`."@
}

/// How a command is shown: the command, then its description indented on
/// the next line.
pub open spec fn entry_text(e: EntryModel) -> Seq<char> {
    e.0 + "\n  "@ + e.1 + "\n"@
}

/// The commands of a category as `show` prints them, separated by empty
/// lines.
pub open spec fn show_text(es: Seq<EntryModel>) -> Seq<char>
    decreases es.len(),
{
    if es.len() == 0 {
        Seq::empty()
    } else if es.len() == 1 {
        entry_text(es[0])
    } else {
        show_text(es.drop_last()) + "\n"@ + entry_text(es.last())
    }
}

/// The text that shows the commands of `category`.
pub fn show(config: &Config, category: &str) -> (r: Result<String, Error>)
    ensures
        match r {
            Ok(text) => {
                &&& category_problem(category@) is None
                &&& lookup(config@, category@) matches Some(es)
                &&& text@ == show_text(es)
            },
            Err(e) => match category_problem(category@) {
                Some(p) => e.0@ == p,
                None => lookup(config@, category@) is None && e.0@ == unknown_category_message(
                    category@,
                ),
            },
        },
{
    match checked_category(category) {
        Err(e) => {
            return Err(e);
        },
        Ok(()) => {},
    }
    let entries = match config.get(category) {
        Some(entries) => entries,
        None => {
            let mut m = join3(
                "category \"",
                category,
                "\" does not exist.\nRun `cmdnavi list` to see your categories. To create it, use `cmdnavi add ",
            );
            m.append(category);
            m.append("` or `cmdnavi edit ");
            m.append(category);
            m.append("`.");
            return Err(Error(m));
        },
    };
    let ghost es = entries_model(entries@);
    let mut text = String::new();
    let mut i: usize = 0;
    while i < entries.len()
        invariant
            i <= entries@.len(),
            es == entries_model(entries@),
            text@ == show_text(es.subrange(0, i as int)),
        decreases entries@.len() - i,
    {
        let ghost before = es.subrange(0, i as int);
        let ghost after = es.subrange(0, i + 1);
        assert(after.drop_last() =~= before);
        assert(after.last() == entries@[i as int]@);
        if i > 0 {
            text.append("\n");
        }
        text.append(entries[i].command.as_str());
        text.append("\n  ");
        text.append(entries[i].description.as_str());
        text.append("\n");
        proof {
            if i == 0 {
                assert(text@ =~= entry_text(after[0]));
            } else {
                assert(text@ =~= show_text(before) + "\n"@ + entry_text(after.last()));
            }
        }
        i = i + 1;
    }
    assert(es.subrange(0, i as int) =~= es);
    Ok(text)
}

/// The category names as `list` prints them, one per line.
pub open spec fn list_text(m: Seq<CategoryModel>) -> Seq<char>
    decreases m.len(),
{
    if m.len() == 0 {
        Seq::empty()
    } else {
        list_text(m.drop_last()) + m.last().0 + "\n"@
    }
}

/// The text that lists the categories, in order of their names.
pub fn list(config: &Config) -> (r: String)
    ensures
        r@ == list_text(config@),
        sorted_names(config@),
{
    let cats = config.categories();
    let ghost m = config@;
    let mut text = String::new();
    let mut i: usize = 0;
    while i < cats.len()
        invariant
            i <= cats@.len(),
            m == cats@.map_values(|c: Category| c@),
            text@ == list_text(m.subrange(0, i as int)),
        decreases cats@.len() - i,
    {
        let ghost after = m.subrange(0, i + 1);
        assert(after.drop_last() =~= m.subrange(0, i as int));
        assert(after.last().0 == cats@[i as int].name@);
        text.append(cats[i].name.as_str());
        text.append("\n");
        i = i + 1;
    }
    assert(m.subrange(0, i as int) =~= m);
    text
}

pub open spec fn empty_command_message() -> Seq<char> {
    "the command was not added because command is empty.\nEnter the command text you want to save and try again."@
}

pub open spec fn empty_description_message() -> Seq<char> {
    "the command was not added because description is empty.\nEnter a short explanation of what the command does and try again."@
}

/// Checks the command text read for `add`.
pub fn check_command(command: &str) -> (r: Result<(), Error>)
    ensures
        match r {
            Ok(()) => !is_blank(command@),
            Err(e) => is_blank(command@) && e.0@ == empty_command_message(),
        },
{
    if is_blank_str(command) {
        return Err(
            Error(
                owned(
                    "the command was not added because command is empty.\nEnter the command text you want to save and try again.",
                ),
            ),
        );
    }
    Ok(())
}

/// Checks the description read for `add`.
pub fn check_description(description: &str) -> (r: Result<(), Error>)
    ensures
        match r {
            Ok(()) => !is_blank(description@),
            Err(e) => is_blank(description@) && e.0@ == empty_description_message(),
        },
{
    if is_blank_str(description) {
        return Err(
            Error(
                owned(
                    "the command was not added because description is empty.\nEnter a short explanation of what the command does and try again.",
                ),
            ),
        );
    }
    Ok(())
}

/// Adds a command to a category, creating the category if it does not
/// exist; tells whether it was created. The category name, the command and
/// the description are checked first, in that order, and on a problem the
/// configuration is left as it was.
pub fn add(config: &mut Config, category: &str, command: String, description: String) -> (r:
    Result<bool, Error>)
    ensures
        match r {
            Ok(created) => {
                &&& category_problem(category@) is None
                &&& !is_blank(command@)
                &&& !is_blank(description@)
                &&& created == lookup(old(config)@, category@) is None
                &&& updated(
                    old(config)@,
                    final(config)@,
                    category@,
                    appended(old(config)@, category@, (command@, description@)),
                )
            },
            Err(e) => {
                &&& final(config)@ == old(config)@
                &&& e.0@ == (match category_problem(category@) {
                    Some(p) => p,
                    None => if is_blank(command@) {
                        empty_command_message()
                    } else {
                        empty_description_message()
                    },
                })
                &&& (category_problem(category@) is Some || is_blank(command@) || is_blank(
                    description@,
                ))
            },
        },
{
    match checked_category(category) {
        Err(e) => {
            return Err(e);
        },
        Ok(()) => {},
    }
    match check_command(command.as_str()) {
        Err(e) => {
            return Err(e);
        },
        Ok(()) => {},
    }
    match check_description(description.as_str()) {
        Err(e) => {
            return Err(e);
        },
        Ok(()) => {},
    }
    let created = config.push_entry(owned(category), CommandEntry { command, description });
    Ok(created)
}

pub open spec fn add_report_text(category: Seq<char>, created: bool) -> Seq<char> {
    (if created {
        "Category \""@ + category + "\" does not exist.\nCreated category \""@ + category
            + "\".\n"@
    } else {
        Seq::empty()
    }) + "Added command to \""@ + category + "\".\n"@
}

/// What `add` prints once the command is saved.
pub fn add_report(category: &str, created: bool) -> (r: String)
    ensures
        r@ == add_report_text(category@, created),
{
    let mut r = String::new();
    if created {
        r.append("Category \"");
        r.append(category);
        r.append("\" does not exist.\nCreated category \"");
        r.append(category);
        r.append("\".\n");
    }
    r.append("Added command to \"");
    r.append(category);
    r.append("\".\n");
    assert(r@ =~= add_report_text(category@, created));
    r
}

pub open spec fn missing_input_message() -> Seq<char> {
    "the operation stopped because an input value is missing.\nProvide every requested value, or run the command interactively."@
}

/// A line of input as the commands use it: without its line ending. `None`
/// stands for the end of the input, where a value was expected.
pub fn read_line(line: Option<String>) -> (r: Result<String, Error>)
    ensures
        match line {
            None => r matches Err(e) && e.0@ == missing_input_message(),
            Some(l) => r matches Ok(v) && v@ == strip_line_end(l@),
        },
{
    match line {
        None => Err(
            Error(
                owned(
                    "the operation stopped because an input value is missing.\nProvide every requested value, or run the command interactively.",
                ),
            ),
        ),
        Some(l) => Ok(strip_line_end_str(l.as_str())),
    }
}

pub open spec fn nothing_to_remove_message(category: Seq<char>) -> Seq<char> {
    "nothing was removed because category \""@ + category
        + "\" does not exist.\nRun `cmdnavi list` and choose one of your existing categories."@
}

pub open spec fn no_commands_message(category: Seq<char>) -> Seq<char> {
    "category \""@ + category + "\" has no commands to remove.\nAdd one with `cmdnavi add "@
        + category + "` first."@
}

/// One numbered choice of the `remove` menu.
pub open spec fn choice_text(number: nat, e: EntryModel) -> Seq<char> {
    "["@ + decimal(number) + "] "@ + e.0 + "\n    "@ + e.1 + "\n\n"@
}

/// The numbered menu of commands that `remove` offers, from 1.
pub open spec fn choices_text(es: Seq<EntryModel>) -> Seq<char>
    decreases es.len(),
{
    if es.len() == 0 {
        Seq::empty()
    } else {
        choices_text(es.drop_last()) + choice_text(es.len(), es.last())
    }
}

/// The menu that `remove` shows for `category`: the category must exist and
/// hold at least one command.
pub fn remove_choices(config: &Config, category: &str) -> (r: Result<String, Error>)
    ensures
        match r {
            Ok(text) => {
                &&& lookup(config@, category@) matches Some(es)
                &&& es.len() > 0
                &&& text@ == choices_text(es)
            },
            Err(e) => match lookup(config@, category@) {
                None => e.0@ == nothing_to_remove_message(category@),
                Some(es) => es.len() == 0 && e.0@ == no_commands_message(category@),
            },
        },
{
    let entries = match config.get(category) {
        Some(entries) => entries,
        None => {
            return Err(
                Error(
                    join3(
                        "nothing was removed because category \"",
                        category,
                        "\" does not exist.\nRun `cmdnavi list` and choose one of your existing categories.",
                    ),
                ),
            );
        },
    };
    if entries.len() == 0 {
        let mut m = join3(
            "category \"",
            category,
            "\" has no commands to remove.\nAdd one with `cmdnavi add ",
        );
        m.append(category);
        m.append("` first.");
        return Err(Error(m));
    }
    let ghost es = entries_model(entries@);
    let mut text = String::new();
    let mut i: usize = 0;
    while i < entries.len()
        invariant
            i <= entries@.len(),
            es == entries_model(entries@),
            text@ == choices_text(es.subrange(0, i as int)),
        decreases entries@.len() - i,
    {
        let ghost before = es.subrange(0, i as int);
        let ghost after = es.subrange(0, i + 1);
        assert(after.drop_last() =~= before);
        assert(after.last() == entries@[i as int]@);
        text.append("[");
        push_decimal(&mut text, i + 1);
        text.append("] ");
        text.append(entries[i].command.as_str());
        text.append("\n    ");
        text.append(entries[i].description.as_str());
        text.append("\n\n");
        assert(text@ =~= choices_text(before) + choice_text((i + 1) as nat, after.last()));
        i = i + 1;
    }
    assert(es.subrange(0, i as int) =~= es);
    Ok(text)
}

pub open spec fn not_a_number_message() -> Seq<char> {
    "nothing was removed because the selection is not a number.\nEnter one of the item numbers shown above."@
}

pub open spec fn out_of_range_message(selection: nat, count: nat) -> Seq<char> {
    "nothing was removed because "@ + decimal(selection) + " is outside the available range (1-"@
        + decimal(count) + ").\nEnter a number between 1 and "@ + decimal(count) + "."@
}

/// The item number chosen in the `remove` menu of `count` items: the
/// trimmed line must be a number from 1 to `count`.
pub fn parse_selection(line: &str, count: usize) -> (r: Result<usize, Error>)
    ensures
        match r {
            Ok(n) => parse_usize(trim(line@)) == Some(n) && 1 <= n <= count,
            Err(e) => match parse_usize(trim(line@)) {
                None => e.0@ == not_a_number_message(),
                Some(n) => (n == 0 || n > count) && e.0@ == out_of_range_message(
                    n as nat,
                    count as nat,
                ),
            },
        },
{
    let trimmed = trim_str(line);
    let selection = match parse_usize_str(trimmed.as_str()) {
        Some(n) => n,
        None => {
            return Err(
                Error(
                    owned(
                        "nothing was removed because the selection is not a number.\nEnter one of the item numbers shown above.",
                    ),
                ),
            );
        },
    };
    if selection == 0 || selection > count {
        let mut m = owned("nothing was removed because ");
        push_decimal(&mut m, selection);
        m.append(" is outside the available range (1-");
        push_decimal(&mut m, count);
        m.append(").\nEnter a number between 1 and ");
        push_decimal(&mut m, count);
        m.append(".");
        return Err(Error(m));
    }
    Ok(selection)
}

/// The question that asks to confirm removing `command`.
pub fn confirmation_prompt(command: &str) -> (r: String)
    ensures
        r@ == "Remove \""@ + command@ + "\"? [y/N]: "@,
{
    join3("Remove \"", command, "\"? [y/N]: ")
}

/// Whether an answer confirms: `y` in either case, nothing else.
pub fn is_confirmed(answer: &str) -> (r: bool)
    ensures
        r == (answer@ == "y"@ || answer@ == "Y"@),
{
    str_eq(answer, "y") || str_eq(answer, "Y")
}

pub open spec fn changed_while_choosing_message(category: Seq<char>) -> Seq<char> {
    "nothing was removed because category \""@ + category
        + "\" changed while you were choosing an item.\nRun `cmdnavi remove "@ + category
        + "` again and choose from the updated list."@
}

/// Removes item `selection` (counted from 1) of the menu `shown` from
/// `category`, provided the category still holds exactly the commands that
/// the menu showed; otherwise the configuration is left as it was.
pub fn remove(config: &mut Config, category: &str, shown: &Vec<CommandEntry>, selection: usize) -> (r:
    Result<(), Error>)
    requires
        1 <= selection <= shown@.len(),
    ensures
        match r {
            Ok(()) => {
                &&& lookup(old(config)@, category@) == Some(entries_model(shown@))
                &&& updated(
                    old(config)@,
                    final(config)@,
                    category@,
                    entries_model(shown@).remove(selection - 1),
                )
            },
            Err(e) => {
                &&& lookup(old(config)@, category@) != Some(entries_model(shown@))
                &&& final(config)@ == old(config)@
                &&& e.0@ == changed_while_choosing_message(category@)
            },
        },
{
    let unchanged = match config.get(category) {
        Some(current) => crate::model::entries_equal(current, shown),
        None => false,
    };
    if !unchanged {
        let mut m = join3(
            "nothing was removed because category \"",
            category,
            "\" changed while you were choosing an item.\nRun `cmdnavi remove ",
        );
        m.append(category);
        m.append("` again and choose from the updated list.");
        return Err(Error(m));
    }
    config.remove_entry(category, selection - 1);
    Ok(())
}

/// What `remove` prints once the command is removed.
pub fn removed_report(command: &str, category: &str) -> (r: String)
    ensures
        r@ == "Removed \""@ + command@ + "\" from \""@ + category@ + "\".\n"@,
{
    let mut r = join3("Removed \"", command, "\" from \"");
    r.append(category);
    r.append("\".\n");
    r
}

} // verus!
