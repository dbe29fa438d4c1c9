//! Properties that span the operations of the library.
use vstd::prelude::*;

use crate::cli::{choices_text, entry_text, list_text, plan, show_text, Action};
use crate::config::{effectively_empty, is_line};
use crate::model::{
    appended, category_index, category_problem, has_name_chars, is_name_char, config_problem, entries_problem, entry_problem,
    lemma_lookup_at, lemma_sorted_lookup_ext, lookup, sorted_names, updated, CategoryModel,
    EntryModel,
};
use crate::text::{
    all_digits, chars_lt, decimal, digit_char, digit_value, digits_value, is_blank, is_digit, is_white_space,
    parse_usize, strip_line_end, trim, trim_end, trim_start,
};

verus! {

/// A list of commands is valid exactly when every command in it has a
/// command and a description that are not blank.
pub proof fn law_valid_entries(es: Seq<EntryModel>)
    ensures
        entries_problem(es) is None <==> forall|j: int|
            0 <= j < es.len() ==> #[trigger] entry_problem(es[j]) is None,
    decreases es.len(),
{
    if es.len() > 0 {
        law_valid_entries(es.drop_first());
        if entries_problem(es) is None {
            assert forall|j: int| 0 <= j < es.len() implies #[trigger] entry_problem(es[j]) is None by {
                if j > 0 {
                    assert(es[j] == es.drop_first()[j - 1]);
                }
            }
        }
        if forall|j: int| 0 <= j < es.len() ==> #[trigger] entry_problem(es[j]) is None {
            assert(entry_problem(es[0]) is None);
            assert forall|j: int| 0 <= j < es.drop_first().len() implies #[trigger] entry_problem(
                es.drop_first()[j],
            ) is None by {
                assert(es.drop_first()[j] == es[j + 1]);
            }
        }
    }
}

/// A configuration is valid exactly when every category name is valid and
/// every list of commands is valid.
pub proof fn law_valid_config(m: Seq<CategoryModel>)
    ensures
        config_problem(m) is None <==> forall|i: int|
            0 <= i < m.len() ==> category_problem(#[trigger] m[i].0) is None && entries_problem(
                m[i].1,
            ) is None,
    decreases m.len(),
{
    if m.len() > 0 {
        law_valid_config(m.drop_first());
        if config_problem(m) is None {
            assert forall|i: int| 0 <= i < m.len() implies category_problem(#[trigger] m[i].0) is None
                && entries_problem(m[i].1) is None by {
                if i > 0 {
                    assert(m[i] == m.drop_first()[i - 1]);
                }
            }
        }
        if forall|i: int|
            0 <= i < m.len() ==> category_problem(#[trigger] m[i].0) is None && entries_problem(
                m[i].1,
            ) is None {
            assert(category_problem(m[0].0) is None);
            assert forall|i: int| 0 <= i < m.drop_first().len() implies category_problem(
                #[trigger] m.drop_first()[i].0,
            ) is None && entries_problem(m.drop_first()[i].1) is None by {
                assert(m.drop_first()[i] == m[i + 1]);
            }
        }
    }
}

/// In a valid configuration, every category that a name looks up holds a
/// valid list of commands.
proof fn lemma_valid_lookup(m: Seq<CategoryModel>, k: Seq<char>)
    requires
        config_problem(m) is None,
        lookup(m, k) is Some,
    ensures
        entries_problem(lookup(m, k).unwrap()) is None,
        category_problem(k) is None,
{
    law_valid_config(m);
    let i = category_index(m, k);
    assert(m[i].0 == k);
}

/// Setting the commands of a category keeps a configuration valid, when the
/// name and the commands are valid. `add`, `remove` and `edit_category` all
/// change a configuration this way.
pub proof fn law_update_keeps_valid(
    before: Seq<CategoryModel>,
    after: Seq<CategoryModel>,
    name: Seq<char>,
    es: Seq<EntryModel>,
)
    requires
        config_problem(before) is None,
        updated(before, after, name, es),
        category_problem(name) is None,
        entries_problem(es) is None,
    ensures
        config_problem(after) is None,
{
    law_valid_config(after);
    assert forall|i: int| 0 <= i < after.len() implies category_problem(#[trigger] after[i].0) is None
        && entries_problem(after[i].1) is None by {
        lemma_lookup_at(after, i);
        let k = after[i].0;
        if k != name {
            assert(lookup(before, k) == Some(after[i].1));
            lemma_valid_lookup(before, k);
        }
    }
}

/// Adding a command with a valid category name, command and description
/// keeps a configuration valid.
pub proof fn law_add_keeps_valid(
    before: Seq<CategoryModel>,
    after: Seq<CategoryModel>,
    category: Seq<char>,
    entry: EntryModel,
)
    requires
        config_problem(before) is None,
        updated(before, after, category, appended(before, category, entry)),
        category_problem(category) is None,
        entry_problem(entry) is None,
    ensures
        config_problem(after) is None,
{
    let es = appended(before, category, entry);
    law_valid_entries(es);
    match lookup(before, category) {
        Some(old) => {
            lemma_valid_lookup(before, category);
            law_valid_entries(old);
            assert forall|j: int| 0 <= j < es.len() implies #[trigger] entry_problem(es[j]) is None by {
                if j < old.len() {
                    assert(es[j] == old[j]);
                }
            }
        },
        None => {
            assert(es[0] == entry);
        },
    }
    law_update_keeps_valid(before, after, category, es);
}

/// Removing a command keeps a configuration valid.
pub proof fn law_remove_keeps_valid(
    before: Seq<CategoryModel>,
    after: Seq<CategoryModel>,
    category: Seq<char>,
    index: int,
)
    requires
        config_problem(before) is None,
        lookup(before, category) is Some,
        0 <= index < lookup(before, category).unwrap().len(),
        updated(before, after, category, lookup(before, category).unwrap().remove(index)),
    ensures
        config_problem(after) is None,
{
    let old = lookup(before, category).unwrap();
    let es = old.remove(index);
    lemma_valid_lookup(before, category);
    law_valid_entries(old);
    law_valid_entries(es);
    assert forall|j: int| 0 <= j < es.len() implies #[trigger] entry_problem(es[j]) is None by {
        if j < index {
            assert(es[j] == old[j]);
        } else {
            assert(es[j] == old[j + 1]);
        }
    }
    law_update_keeps_valid(before, after, category, es);
}

/// Removing the command that was just added undoes the addition: the
/// configuration is what it was, except that a category that the addition
/// created stays, without commands.
pub proof fn law_remove_undoes_add(
    before: Seq<CategoryModel>,
    middle: Seq<CategoryModel>,
    after: Seq<CategoryModel>,
    category: Seq<char>,
    entry: EntryModel,
)
    requires
        sorted_names(before),
        updated(before, middle, category, appended(before, category, entry)),
        updated(
            middle,
            after,
            category,
            appended(before, category, entry).remove(appended(before, category, entry).len() - 1),
        ),
    ensures
        lookup(before, category) is Some ==> after == before,
        lookup(before, category) is None ==> lookup(after, category) == Some(
            Seq::<EntryModel>::empty(),
        ) && forall|k: Seq<char>| k != category ==> #[trigger] lookup(after, k) == lookup(before, k),
{
    let es = appended(before, category, entry);
    let rest = es.remove(es.len() - 1);
    match lookup(before, category) {
        Some(old) => {
            assert(rest =~= old);
            assert forall|k: Seq<char>| #[trigger] lookup(after, k) == lookup(before, k) by {
                if k != category {
                    assert(lookup(middle, k) == lookup(before, k));
                }
            }
            lemma_sorted_lookup_ext(after, before);
        },
        None => {
            assert(rest =~= Seq::<EntryModel>::empty());
            assert forall|k: Seq<char>| k != category implies #[trigger] lookup(after, k) == lookup(
                before,
                k,
            ) by {
                assert(lookup(middle, k) == lookup(before, k));
            }
        },
    }
}

/// After a command is added, showing its category shows what it showed
/// before, then the new command.
pub proof fn law_show_after_add(
    before: Seq<CategoryModel>,
    after: Seq<CategoryModel>,
    category: Seq<char>,
    entry: EntryModel,
)
    requires
        updated(before, after, category, appended(before, category, entry)),
    ensures
        lookup(after, category) matches Some(es) && show_text(es) == match lookup(
            before,
            category,
        ) {
            Some(old) if old.len() > 0 => show_text(old) + "\n"@ + entry_text(entry),
            _ => entry_text(entry),
        },
{
    let es = appended(before, category, entry);
    assert(lookup(after, category) == Some(es));
    match lookup(before, category) {
        Some(old) => {
            assert(es.drop_last() =~= old);
            if old.len() == 0 {
                assert(es.len() == 1);
            }
        },
        None => {},
    }
}

/// A valid category name that does not begin with `-`, given alone on the
/// command line, asks to show that category: the reserved names are
/// exactly the words that the command line keeps for itself. (A valid name
/// such as `-x` is read as an option instead.)
pub proof fn law_valid_name_alone_shows_it(name: Seq<char>)
    requires
        category_problem(name) is None,
        name[0] != '-',
    ensures
        plan(seq![name]) == Ok::<_, Seq<char>>((Action::Show, Some(name))),
{
    reveal_strlit("-h");
    reveal_strlit("--help");
    reveal_strlit("-v");
    reveal_strlit("--version");
    assert("-h"@[0] == '-');
    assert("--help"@[0] == '-');
    assert("-v"@[0] == '-');
    assert("--version"@[0] == '-');
    assert(seq![name][0] == name);
}

/// Two texts joined by a line feed hold no setting exactly when neither
/// does: the lines of the joined text are the lines of the first, then the
/// lines of the second.
pub proof fn law_effectively_empty_join(a: Seq<char>, b: Seq<char>)
    ensures
        effectively_empty(a + seq!['\n'] + b) == (effectively_empty(a) && effectively_empty(b)),
{
    let s = a + seq!['\n'] + b;
    let n = a.len() as int;
    assert(s[n] == '\n');
    assert forall|k: int| 0 <= k < n implies s[k] == a[k] by {}
    assert forall|k: int| 0 <= k < b.len() implies s[k + n + 1] == b[k] by {}
    if effectively_empty(a) && effectively_empty(b) {
        assert forall|x: int, y: int| #[trigger] is_line(s, x, y) implies crate::config::is_blank_or_comment(
            s.subrange(x, y),
        ) by {
            if x <= n {
                if y > n {
                    assert(s[n] != '\n');
                }
                assert(is_line(a, x, y));
                assert(s.subrange(x, y) =~= a.subrange(x, y));
            } else {
                let x2 = x - n - 1;
                let y2 = y - n - 1;
                assert forall|k: int| x2 <= k < y2 implies b[k] != '\n' by {
                    assert(s[k + n + 1] != '\n');
                }
                assert(is_line(b, x2, y2));
                assert(s.subrange(x, y) =~= b.subrange(x2, y2));
            }
        }
    }
    if effectively_empty(s) {
        assert forall|x: int, y: int| #[trigger] is_line(a, x, y) implies crate::config::is_blank_or_comment(
            a.subrange(x, y),
        ) by {
            assert forall|k: int| x <= k < y implies s[k] != '\n' by {
                assert(s[k] == a[k]);
            }
            assert(is_line(s, x, y));
            assert(s.subrange(x, y) =~= a.subrange(x, y));
        }
        assert forall|x: int, y: int| #[trigger] is_line(b, x, y) implies crate::config::is_blank_or_comment(
            b.subrange(x, y),
        ) by {
            assert forall|k: int| x + n + 1 <= k < y + n + 1 implies s[k] != '\n' by {
                assert(s[k] == b[k - n - 1]);
            }
            if x > 0 {
                assert(s[x + n] == b[x - 1]);
            }
            if y < b.len() {
                assert(s[y + n + 1] == b[y]);
            }
            assert(is_line(s, x + n + 1, y + n + 1));
            assert(s.subrange(x + n + 1, y + n + 1) =~= b.subrange(x, y));
        }
    }
}

/// A category name is accepted exactly when it is not empty, is made of
/// ASCII letters, digits, `_` and `-`, and is none of the six command words
/// `add`, `edit`, `list`, `remove`, `help`, `version`. Names that merely
/// begin with one of them (`editor`, `listen`) are accepted.
pub proof fn law_category_names(s: Seq<char>)
    ensures
        category_problem(s) is None <==> {
            &&& s.len() > 0
            &&& forall|i: int|
                0 <= i < s.len() ==> {
                    let c = #[trigger] s[i];
                    ||| ('a' <= c && c <= 'z')
                    ||| ('A' <= c && c <= 'Z')
                    ||| ('0' <= c && c <= '9')
                    ||| c == '_'
                    ||| c == '-'
                }
            &&& s != "add"@
            &&& s != "edit"@
            &&& s != "list"@
            &&& s != "remove"@
            &&& s != "help"@
            &&& s != "version"@
        },
{
    let chars_ok = forall|i: int|
        0 <= i < s.len() ==> {
            let c = #[trigger] s[i];
            ||| ('a' <= c && c <= 'z')
            ||| ('A' <= c && c <= 'Z')
            ||| ('0' <= c && c <= '9')
            ||| c == '_'
            ||| c == '-'
        };
    if has_name_chars(s) {
        assert forall|i: int| 0 <= i < s.len() implies {
            let c = #[trigger] s[i];
            ||| ('a' <= c && c <= 'z')
            ||| ('A' <= c && c <= 'Z')
            ||| ('0' <= c && c <= '9')
            ||| c == '_'
            ||| c == '-'
        } by {
            assert(is_name_char(s[i]));
        }
    }
    if s.len() > 0 && chars_ok {
        assert forall|i: int| 0 <= i < s.len() implies #[trigger] is_name_char(s[i]) by {
            let c = s[i];
        }
        assert(has_name_chars(s));
    }
}

/// A command entry is valid exactly when its command and its description
/// each hold a character that is not whitespace; nothing else about them
/// matters.
pub proof fn law_entry_valid(e: EntryModel)
    ensures
        entry_problem(e) is None <==> (exists|i: int|
            0 <= i < e.0.len() && !is_white_space(#[trigger] e.0[i])) && (exists|j: int|
            0 <= j < e.1.len() && !is_white_space(#[trigger] e.1[j])),
{
}

/// The listing of one category is its name on a line of its own.
pub proof fn law_list_one(c: CategoryModel)
    ensures
        list_text(seq![c]) == c.0 + "\n"@,
{
    assert(seq![c].drop_last() =~= Seq::<CategoryModel>::empty());
    assert(list_text(Seq::<CategoryModel>::empty()) == Seq::<char>::empty());
    assert(Seq::<char>::empty() + c.0 + "\n"@ =~= c.0 + "\n"@);
}

/// The listing of categories one after the other is their listings one
/// after the other: every category is listed, in order, and nothing else.
pub proof fn law_list_join(a: Seq<CategoryModel>, b: Seq<CategoryModel>)
    ensures
        list_text(a + b) == list_text(a) + list_text(b),
    decreases b.len(),
{
    if b.len() == 0 {
        assert(a + b =~= a);
        assert(list_text(a) + list_text(b) =~= list_text(a));
    } else {
        law_list_join(a, b.drop_last());
        assert((a + b).drop_last() =~= a + b.drop_last());
        assert((a + b).last() == b.last());
        assert(list_text(a + b) =~= list_text(a) + list_text(b));
    }
}

/// A category with one command shows the whole command, then the whole
/// description indented by two spaces on the next line.
pub proof fn law_show_one(e: EntryModel)
    ensures
        show_text(seq![e]) == e.0 + "\n  "@ + e.1 + "\n"@,
{
}

/// Showing commands one after the other shows each group, separated by an
/// empty line: every command is shown, in order.
pub proof fn law_show_join(a: Seq<EntryModel>, b: Seq<EntryModel>)
    requires
        a.len() > 0,
        b.len() > 0,
    ensures
        show_text(a + b) == show_text(a) + "\n"@ + show_text(b),
    decreases b.len(),
{
    if b.len() == 1 {
        assert((a + b).drop_last() =~= a);
        assert((a + b).last() == b[0]);
    } else {
        law_show_join(a, b.drop_last());
        assert((a + b).drop_last() =~= a + b.drop_last());
        assert((a + b).last() == b.last());
        assert(show_text(a + b) =~= show_text(a) + "\n"@ + show_text(b));
    }
}

/// The `remove` menu for no commands is empty, and one more command adds
/// the line `[n] command`, with `n` its number from 1, then its whole
/// description indented by four spaces, then an empty line.
pub proof fn law_choices_push(es: Seq<EntryModel>, e: EntryModel)
    ensures
        choices_text(Seq::<EntryModel>::empty()) == Seq::<char>::empty(),
        choices_text(es.push(e)) == choices_text(es) + "["@ + decimal(es.len() + 1) + "] "@ + e.0
            + "\n    "@ + e.1 + "\n\n"@,
{
    assert(es.push(e).drop_last() =~= es);
    assert(choices_text(es.push(e)) =~= choices_text(es) + "["@ + decimal(es.len() + 1) + "] "@
        + e.0 + "\n    "@ + e.1 + "\n\n"@);
}

/// A line read from the input loses exactly its trailing carriage returns
/// and line feeds: what remains is the start of the line, it does not end
/// in one, and everything after it is one.
pub proof fn law_strip_line_end(s: Seq<char>)
    ensures
        strip_line_end(s).len() <= s.len(),
        strip_line_end(s) == s.subrange(0, strip_line_end(s).len() as int),
        strip_line_end(s).len() == 0 || (strip_line_end(s).last() != '\r' && strip_line_end(
            s,
        ).last() != '\n'),
        forall|k: int|
            strip_line_end(s).len() <= k < s.len() ==> (#[trigger] s[k] == '\r' || s[k] == '\n'),
    decreases s.len(),
{
    if s.len() > 0 && (s.last() == '\r' || s.last() == '\n') {
        let d = s.drop_last();
        law_strip_line_end(d);
        let t = strip_line_end(d);
        assert(t =~= s.subrange(0, t.len() as int));
        assert forall|k: int| t.len() <= k < s.len() implies (#[trigger] s[k] == '\r' || s[k]
            == '\n') by {
            if k < d.len() {
                assert(s[k] == d[k]);
            }
        }
    } else {
        assert(s.subrange(0, s.len() as int) =~= s);
    }
}

proof fn lemma_trim_start_shape(s: Seq<char>)
    ensures
        trim_start(s).len() <= s.len(),
        trim_start(s) == s.subrange(s.len() - trim_start(s).len(), s.len() as int),
        forall|j: int| 0 <= j < s.len() - trim_start(s).len() ==> is_white_space(#[trigger] s[j]),
        trim_start(s).len() == 0 || !is_white_space(trim_start(s)[0]),
    decreases s.len(),
{
    if s.len() > 0 && is_white_space(s[0]) {
        let d = s.drop_first();
        lemma_trim_start_shape(d);
        let t = trim_start(d);
        assert(t =~= s.subrange(s.len() - t.len(), s.len() as int));
        assert forall|j: int| 0 <= j < s.len() - t.len() implies is_white_space(#[trigger] s[j]) by {
            if j > 0 {
                assert(s[j] == d[j - 1]);
            }
        }
    } else {
        assert(s.subrange(0, s.len() as int) =~= s);
    }
}

proof fn lemma_trim_end_shape(s: Seq<char>)
    ensures
        trim_end(s).len() <= s.len(),
        trim_end(s) == s.subrange(0, trim_end(s).len() as int),
        forall|j: int| trim_end(s).len() <= j < s.len() ==> is_white_space(#[trigger] s[j]),
        trim_end(s).len() == 0 || !is_white_space(trim_end(s).last()),
    decreases s.len(),
{
    if s.len() > 0 && is_white_space(s.last()) {
        let d = s.drop_last();
        lemma_trim_end_shape(d);
        let t = trim_end(d);
        assert(t =~= s.subrange(0, t.len() as int));
        assert forall|j: int| t.len() <= j < s.len() implies is_white_space(#[trigger] s[j]) by {
            if j < d.len() {
                assert(s[j] == d[j]);
            }
        }
    } else {
        assert(s.subrange(0, s.len() as int) =~= s);
    }
}

/// Trimming removes whitespace at both ends and nothing else: the result is
/// the unbroken part of the text that starts where the leading whitespace
/// ends, everything outside it is whitespace, and it neither starts nor
/// ends with whitespace.
pub proof fn law_trim(s: Seq<char>)
    ensures
        ({
            let k = s.len() - trim_start(s).len();
            &&& 0 <= k
            &&& k + trim(s).len() <= s.len()
            &&& trim(s) == s.subrange(k, k + trim(s).len())
            &&& forall|j: int| 0 <= j < k ==> is_white_space(#[trigger] s[j])
            &&& forall|j: int| k + trim(s).len() <= j < s.len() ==> is_white_space(#[trigger] s[j])
        }),
        trim(s).len() == 0 || (!is_white_space(trim(s)[0]) && !is_white_space(trim(s).last())),
{
    lemma_trim_start_shape(s);
    let u = trim_start(s);
    lemma_trim_end_shape(u);
    let t = trim(s);
    let k = s.len() - u.len();
    assert(t =~= s.subrange(k, k + t.len()));
    assert forall|j: int| k + t.len() <= j < s.len() implies is_white_space(#[trigger] s[j]) by {
        assert(s[j] == u[j - k]);
    }
    if t.len() > 0 {
        assert(t[0] == u[0]);
    }
}

/// The order of category names: a name comes before another exactly when
/// it is a proper beginning of it, or when at the first place where they
/// differ its character comes first.
pub proof fn law_name_order(a: Seq<char>, b: Seq<char>)
    ensures
        chars_lt(a, b) <==> ((a.len() < b.len() && a == b.subrange(0, a.len() as int)) || exists|
            k: int,
        |
            0 <= k < a.len() && k < b.len() && a.subrange(0, k) == b.subrange(0, k) && #[trigger] a[k]
                < b[k]),
    decreases a.len(),
{
    if a.len() == 0 {
        assert(a =~= b.subrange(0, 0));
    } else if b.len() == 0 {
    } else if a[0] != b[0] {
        if a.len() < b.len() && a == b.subrange(0, a.len() as int) {
            assert(a[0] == b.subrange(0, a.len() as int)[0]);
        }
        if a[0] < b[0] {
            assert(a.subrange(0, 0) =~= b.subrange(0, 0));
            assert(0 <= 0 < a.len() && 0 < b.len() && a.subrange(0, 0) == b.subrange(0, 0) && a[0] < b[0]);
        } else {
            assert forall|k: int|
                0 <= k < a.len() && k < b.len() && a.subrange(0, k) == b.subrange(0, k) implies !(
            #[trigger] a[k] < b[k]) by {
                if k > 0 {
                    assert(a.subrange(0, k)[0] == b.subrange(0, k)[0]);
                }
            }
        }
    } else {
        let a1 = a.drop_first();
        let b1 = b.drop_first();
        law_name_order(a1, b1);
        if a1.len() < b1.len() && a1 == b1.subrange(0, a1.len() as int) {
            assert(a =~= seq![a[0]] + a1);
            assert(b.subrange(0, a.len() as int) =~= seq![b[0]] + b1.subrange(0, a1.len() as int));
        }
        if a.len() < b.len() && a == b.subrange(0, a.len() as int) {
            assert(a1 =~= b1.subrange(0, a1.len() as int));
        }
        if exists|k: int|
            0 <= k < a1.len() && k < b1.len() && a1.subrange(0, k) == b1.subrange(0, k)
                && #[trigger] a1[k] < b1[k] {
            let k = choose|k: int|
                0 <= k < a1.len() && k < b1.len() && a1.subrange(0, k) == b1.subrange(0, k)
                    && #[trigger] a1[k] < b1[k];
            assert(a.subrange(0, k + 1) =~= seq![a[0]] + a1.subrange(0, k));
            assert(b.subrange(0, k + 1) =~= seq![b[0]] + b1.subrange(0, k));
            assert(a[k + 1] == a1[k]);
            assert(b[k + 1] == b1[k]);
        }
        if exists|k: int|
            0 <= k < a.len() && k < b.len() && a.subrange(0, k) == b.subrange(0, k)
                && #[trigger] a[k] < b[k] {
            let k = choose|k: int|
                0 <= k < a.len() && k < b.len() && a.subrange(0, k) == b.subrange(0, k)
                    && #[trigger] a[k] < b[k];
            assert(k > 0);
            assert(a1.subrange(0, k - 1) =~= a.subrange(0, k).drop_first());
            assert(b1.subrange(0, k - 1) =~= b.subrange(0, k).drop_first());
            assert(a1[k - 1] == a[k]);
            assert(b1[k - 1] == b[k]);
        }
    }
}

proof fn lemma_decimal_digits(n: nat)
    ensures
        decimal(n).len() > 0,
        all_digits(decimal(n)),
        digits_value(decimal(n)) == n,
    decreases n,
{
    if n >= 10 {
        lemma_decimal_digits(n / 10);
        let s = decimal(n);
        assert(s.drop_last() =~= decimal(n / 10));
        assert(s.last() == digit_char(n % 10));
        assert(digit_value(digit_char(n % 10)) == n % 10);
        assert((n / 10) * 10 + n % 10 == n) by (nonlinear_arith);
        assert(digits_value(s) == digits_value(s.drop_last()) * 10 + digit_value(s.last()));
        assert forall|i: int| 0 <= i < s.len() implies #[trigger] is_digit(s[i]) by {
            if i < s.len() - 1 {
                assert(s[i] == decimal(n / 10)[i]);
            }
        }
    } else {
        assert(decimal(n)[0] == digit_char(n));
        assert(digit_value(digit_char(n)) == n);
        assert(digits_value(decimal(n)) == digits_value(decimal(n).drop_last()) * 10 + digit_value(decimal(n).last()));
        assert(decimal(n).drop_last() =~= Seq::<char>::empty());
    }
}

/// The number shown in front of a choice of the `remove` menu, typed back,
/// is read as that same number.
pub proof fn law_menu_number_reads_back(n: usize)
    ensures
        parse_usize(trim(decimal(n as nat))) == Some(n),
{
    let s = decimal(n as nat);
    lemma_decimal_digits(n as nat);
    assert(is_digit(s[0]));
    assert(!is_white_space(s[0]));
    assert(trim_start(s) == s);
    assert(is_digit(s.last()));
    assert(trim_end(s) == s);
}

/// A text trims to nothing exactly when it is blank: the test that `add`
/// and `validate` make of a command and a description.
pub proof fn law_trim_empty_iff_blank(s: Seq<char>)
    ensures
        trim(s).len() == 0 <==> is_blank(s),
{
    lemma_trim_start_blank(s);
    lemma_trim_end_blank(trim_start(s));
}

proof fn lemma_trim_start_blank(s: Seq<char>)
    ensures
        is_blank(s) ==> trim_start(s).len() == 0,
        !is_blank(s) ==> trim_start(s).len() > 0 && !is_white_space(trim_start(s)[0]),
        is_blank(s) == is_blank(trim_start(s)),
    decreases s.len(),
{
    if s.len() > 0 && is_white_space(s[0]) {
        lemma_trim_start_blank(s.drop_first());
        if is_blank(s.drop_first()) {
            assert forall|i: int| 0 <= i < s.len() implies #[trigger] is_white_space(s[i]) by {
                if i > 0 {
                    assert(s[i] == s.drop_first()[i - 1]);
                }
            }
        } else {
            let i = choose|i: int| 0 <= i < s.drop_first().len() && !is_white_space(
                #[trigger] s.drop_first()[i],
            );
            assert(s[i + 1] == s.drop_first()[i]);
        }
    } else if s.len() > 0 {
        assert(!is_blank(s));
    }
}

proof fn lemma_trim_end_blank(s: Seq<char>)
    ensures
        trim_end(s).len() == 0 <==> is_blank(s),
    decreases s.len(),
{
    if s.len() > 0 && is_white_space(s.last()) {
        lemma_trim_end_blank(s.drop_last());
        if is_blank(s.drop_last()) {
            assert forall|i: int| 0 <= i < s.len() implies #[trigger] is_white_space(s[i]) by {
                if i < s.len() - 1 {
                    assert(s[i] == s.drop_last()[i]);
                }
            }
        } else {
            let i = choose|i: int| 0 <= i < s.drop_last().len() && !is_white_space(
                #[trigger] s.drop_last()[i],
            );
            assert(s[i] == s.drop_last()[i]);
        }
    } else if s.len() > 0 {
        assert(!is_white_space(s[s.len() - 1]));
    }
}

} // verus!
