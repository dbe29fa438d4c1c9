//! The data that cmdnavi keeps: commands with their descriptions, grouped
//! into named categories, and the rules that a valid configuration obeys.
use vstd::prelude::*;

use crate::text::{
    chars_lt, chars_of, concat, is_blank, is_blank_str, lemma_chars_lt_asymmetric,
    lemma_chars_lt_irreflexive, lemma_chars_lt_total, lemma_chars_lt_transitive, owned, str_eq,
    str_lt,
};

verus! {

/// A command and its description, as text.
pub type EntryModel = (Seq<char>, Seq<char>);

/// A category name and its commands, in order.
pub type CategoryModel = (Seq<char>, Seq<EntryModel>);

pub const EMPTY_COMMAND: &'static str = "command must not be empty";

pub const EMPTY_DESCRIPTION: &'static str = "description must not be empty";

/// One registered command and what it does.
#[derive(Debug)]
pub struct CommandEntry {
    pub command: String,
    pub description: String,
}

impl View for CommandEntry {
    type V = EntryModel;

    open spec fn view(&self) -> EntryModel {
        (self.command@, self.description@)
    }
}

impl Clone for CommandEntry {
    fn clone(&self) -> (r: Self)
        ensures
            r == *self,
    {
        CommandEntry { command: self.command.clone(), description: self.description.clone() }
    }
}

impl PartialEq for CommandEntry {
    fn eq(&self, other: &Self) -> (r: bool) {
        self.command == other.command && self.description == other.description
    }
}

impl Eq for CommandEntry {

}

impl vstd::std_specs::cmp::PartialEqSpecImpl for CommandEntry {
    open spec fn obeys_eq_spec() -> bool {
        true
    }

    open spec fn eq_spec(&self, other: &Self) -> bool {
        self@ == other@
    }
}

/// The problem with an entry, if it has one: a blank command, else a blank
/// description.
pub open spec fn entry_problem(e: EntryModel) -> Option<Seq<char>> {
    if is_blank(e.0) {
        Some(EMPTY_COMMAND@)
    } else if is_blank(e.1) {
        Some(EMPTY_DESCRIPTION@)
    } else {
        None
    }
}

impl CommandEntry {
    /// Checks that neither the command nor the description is blank.
    pub fn validate(&self) -> (r: Result<(), &'static str>)
        ensures
            match r {
                Ok(()) => entry_problem(self@) is None,
                Err(m) => entry_problem(self@) == Some(m@),
            },
    {
        if is_blank_str(self.command.as_str()) {
            return Err(EMPTY_COMMAND);
        }
        if is_blank_str(self.description.as_str()) {
            return Err(EMPTY_DESCRIPTION);
        }
        Ok(())
    }
}

/// The entries' texts, in order.
pub open spec fn entries_model(v: Seq<CommandEntry>) -> Seq<EntryModel> {
    v.map_values(|e: CommandEntry| e@)
}

/// The first problem among `es`, in order.
pub open spec fn entries_problem(es: Seq<EntryModel>) -> Option<Seq<char>>
    decreases es.len(),
{
    if es.len() == 0 {
        None
    } else {
        match entry_problem(es[0]) {
            Some(p) => Some(p),
            None => entries_problem(es.drop_first()),
        }
    }
}

/// A character allowed in a category name.
pub open spec fn is_name_char(c: char) -> bool {
    ||| ('a' <= c && c <= 'z')
    ||| ('A' <= c && c <= 'Z')
    ||| ('0' <= c && c <= '9')
    ||| c == '_'
    ||| c == '-'
}

/// A non-empty name made of ASCII letters, digits, `_` and `-`.
pub open spec fn has_name_chars(s: Seq<char>) -> bool {
    s.len() > 0 && forall|i: int| 0 <= i < s.len() ==> #[trigger] is_name_char(s[i])
}

/// The names that cmdnavi keeps for its own commands.
pub open spec fn is_reserved(s: Seq<char>) -> bool {
    ||| s == "add"@
    ||| s == "edit"@
    ||| s == "list"@
    ||| s == "remove"@
    ||| s == "help"@
    ||| s == "version"@
}

pub open spec fn bad_characters_message(name: Seq<char>) -> Seq<char> {
    "category \""@ + name
        + "\" contains characters that cannot be used.\nTry a name made from letters, numbers, '_' or '-', such as network or service-op."@
}

pub open spec fn reserved_message(name: Seq<char>) -> Seq<char> {
    "category name \""@ + name + "\" is reserved.\nPlease choose a different category name."@
}

/// The problem with a category name, if it has one.
pub open spec fn category_problem(name: Seq<char>) -> Option<Seq<char>> {
    if !has_name_chars(name) {
        Some(bad_characters_message(name))
    } else if is_reserved(name) {
        Some(reserved_message(name))
    } else {
        None
    }
}

/// An entry problem reported with the category that holds the entry.
pub open spec fn entry_in_category_message(name: Seq<char>, problem: Seq<char>) -> Seq<char> {
    "category \""@ + name + "\": "@ + problem
}

/// The first problem in a configuration: categories in order, and in each
/// category its name first, then its entries in order.
pub open spec fn config_problem(m: Seq<CategoryModel>) -> Option<Seq<char>>
    decreases m.len(),
{
    if m.len() == 0 {
        None
    } else {
        match category_problem(m[0].0) {
            Some(p) => Some(p),
            None => match entries_problem(m[0].1) {
                Some(p) => Some(entry_in_category_message(m[0].0, p)),
                None => config_problem(m.drop_first()),
            },
        }
    }
}

/// `a`, `b` and `c` one after the other.
pub fn join3(a: &str, b: &str, c: &str) -> (r: String)
    ensures
        r@ == a@ + b@ + c@,
{
    let mut r = concat(a, b);
    r.append(c);
    r
}

fn is_name_char_exec(c: char) -> (b: bool)
    ensures
        b == is_name_char(c),
{
    ('a' <= c && c <= 'z') || ('A' <= c && c <= 'Z') || ('0' <= c && c <= '9') || c == '_' || c
        == '-'
}

/// Checks a category name: it must be made of letters, digits, `_` and `-`,
/// and must not be one of cmdnavi's own command names.
pub fn validate_category(category: &str) -> (r: Result<(), String>)
    ensures
        match r {
            Ok(()) => category_problem(category@) is None,
            Err(m) => category_problem(category@) == Some(m@),
        },
{
    let v = chars_of(category);
    let mut ok = v.len() > 0;
    let mut i: usize = 0;
    while i < v.len()
        invariant
            i <= v@.len(),
            v@ == category@,
            ok == (v@.len() > 0 && forall|j: int| 0 <= j < i ==> #[trigger] is_name_char(
                category@[j],
            )),
        decreases v@.len() - i,
    {
        if !is_name_char_exec(v[i]) {
            ok = false;
        }
        i = i + 1;
    }
    if !ok {
        return Err(
            join3(
                "category \"",
                category,
                "\" contains characters that cannot be used.\nTry a name made from letters, numbers, '_' or '-', such as network or service-op.",
            ),
        );
    }
    if str_eq(category, "add") || str_eq(category, "edit") || str_eq(category, "list") || str_eq(
        category,
        "remove",
    ) || str_eq(category, "help") || str_eq(category, "version") {
        return Err(
            join3(
                "category name \"",
                category,
                "\" is reserved.\nPlease choose a different category name.",
            ),
        );
    }
    Ok(())
}

/// The first problem among `entries`, in order.
pub fn validate_entries(entries: &Vec<CommandEntry>) -> (r: Result<(), &'static str>)
    ensures
        match r {
            Ok(()) => entries_problem(entries_model(entries@)) is None,
            Err(m) => entries_problem(entries_model(entries@)) == Some(m@),
        },
{
    let ghost es = entries_model(entries@);
    assert(es.subrange(0, es.len() as int) =~= es);
    let mut i: usize = 0;
    while i < entries.len()
        invariant
            i <= entries@.len(),
            es == entries_model(entries@),
            entries_problem(es) == entries_problem(es.subrange(i as int, es.len() as int)),
        decreases entries@.len() - i,
    {
        let ghost rest = es.subrange(i as int, es.len() as int);
        assert(rest[0] == entries@[i as int]@);
        match entries[i].validate() {
            Err(m) => {
                return Err(m);
            },
            Ok(()) => {},
        }
        assert(rest.drop_first() =~= es.subrange(i + 1, es.len() as int));
        i = i + 1;
    }
    assert(es.subrange(i as int, es.len() as int) =~= Seq::<EntryModel>::empty());
    Ok(())
}

/// A named group of commands.
#[derive(Debug)]
pub struct Category {
    pub name: String,
    pub entries: Vec<CommandEntry>,
}

impl View for Category {
    type V = CategoryModel;

    open spec fn view(&self) -> CategoryModel {
        (self.name@, entries_model(self.entries@))
    }
}

/// Names in strictly increasing order, so that no name occurs twice.
pub open spec fn sorted_names(m: Seq<CategoryModel>) -> bool {
    forall|i: int, j: int| 0 <= i < j < m.len() ==> chars_lt(#[trigger] m[i].0, #[trigger] m[j].0)
}

/// The position of category `name`, where there is one.
pub open spec fn category_index(m: Seq<CategoryModel>, name: Seq<char>) -> int {
    choose|i: int| 0 <= i < m.len() && #[trigger] m[i].0 == name
}

/// The commands of category `name`, if there is one.
pub open spec fn lookup(m: Seq<CategoryModel>, name: Seq<char>) -> Option<Seq<EntryModel>> {
    if exists|i: int| 0 <= i < m.len() && #[trigger] m[i].0 == name {
        Some(m[category_index(m, name)].1)
    } else {
        None
    }
}

/// `after` is `before` with the commands of category `name` set to `es`,
/// the category created where it was missing; names stay sorted.
pub open spec fn updated(
    before: Seq<CategoryModel>,
    after: Seq<CategoryModel>,
    name: Seq<char>,
    es: Seq<EntryModel>,
) -> bool {
    &&& sorted_names(after)
    &&& forall|k: Seq<char>|
        #[trigger] lookup(after, k) == if k == name {
            Some(es)
        } else {
            lookup(before, k)
        }
}

/// The commands of category `name` after `entry` is appended to them; a
/// category that does not exist starts out empty.
pub open spec fn appended(m: Seq<CategoryModel>, name: Seq<char>, entry: EntryModel) -> Seq<
    EntryModel,
> {
    match lookup(m, name) {
        Some(es) => es.push(entry),
        None => seq![entry],
    }
}

/// In a configuration with sorted names, the category at position `i` is
/// the one that its name looks up.
pub proof fn lemma_lookup_at(m: Seq<CategoryModel>, p: int)
    requires
        sorted_names(m),
        0 <= p < m.len(),
    ensures
        lookup(m, m[p].0) == Some(m[p].1),
{
    let name = m[p].0;
    assert(m[p].0 == name);
    let i = category_index(m, name);
    if i < p {
        assert(chars_lt(m[i].0, m[p].0));
        lemma_chars_lt_irreflexive(name);
    } else if p < i {
        assert(chars_lt(m[p].0, m[i].0));
        lemma_chars_lt_irreflexive(name);
    }
}

/// Two configurations with sorted names that look up the same everywhere
/// are the same.
pub proof fn lemma_sorted_lookup_ext(a: Seq<CategoryModel>, b: Seq<CategoryModel>)
    requires
        sorted_names(a),
        sorted_names(b),
        forall|k: Seq<char>| lookup(a, k) == lookup(b, k),
    ensures
        a == b,
    decreases a.len() + b.len(),
{
    if a.len() == 0 {
        if b.len() > 0 {
            lemma_lookup_at(b, 0);
            assert(lookup(a, b[0].0) is None);
        }
        assert(a =~= b);
    } else if b.len() == 0 {
        lemma_lookup_at(a, 0);
        assert(lookup(b, a[0].0) is None);
    } else {
        // The smallest names agree.
        lemma_lookup_at(a, 0);
        lemma_lookup_at(b, 0);
        let ka = a[0].0;
        let kb = b[0].0;
        assert(lookup(b, ka) is Some);
        let jb = choose|j: int| 0 <= j < b.len() && #[trigger] b[j].0 == ka;
        assert(lookup(a, kb) is Some);
        let ja = choose|j: int| 0 <= j < a.len() && #[trigger] a[j].0 == kb;
        if ka != kb {
            if ja > 0 {
                assert(chars_lt(ka, kb));
            }
            if jb > 0 {
                assert(chars_lt(kb, ka));
            }
            if ja > 0 && jb > 0 {
                lemma_chars_lt_asymmetric(ka, kb);
            }
            if ja == 0 {
                assert(a[0].0 == kb);
            }
            if jb == 0 {
                assert(b[0].0 == ka);
            }
        }
        assert(ka == kb);
        assert(a[0].1 == b[0].1);
        let ra = a.drop_first();
        let rb = b.drop_first();
        assert forall|k: Seq<char>| lookup(ra, k) == lookup(rb, k) by {
            lemma_lookup_drop_first(a, k);
            lemma_lookup_drop_first(b, k);
        }
        lemma_sorted_lookup_ext(ra, rb);
        assert(a =~= seq![a[0]] + ra);
        assert(b =~= seq![b[0]] + rb);
    }
}

/// Dropping the first category of a sorted configuration leaves the lookup
/// of every other name unchanged.
proof fn lemma_lookup_drop_first(m: Seq<CategoryModel>, k: Seq<char>)
    requires
        sorted_names(m),
        m.len() > 0,
    ensures
        sorted_names(m.drop_first()),
        lookup(m.drop_first(), k) == (if k == m[0].0 {
            None
        } else {
            lookup(m, k)
        }),
{
    let r = m.drop_first();
    assert(sorted_names(r)) by {
        assert forall|i: int, j: int| 0 <= i < j < r.len() implies chars_lt(
            #[trigger] r[i].0,
            #[trigger] r[j].0,
        ) by {
            assert(r[i] == m[i + 1]);
            assert(r[j] == m[j + 1]);
        }
    }
    if k == m[0].0 {
        if exists|i: int| 0 <= i < r.len() && #[trigger] r[i].0 == k {
            let i = choose|i: int| 0 <= i < r.len() && #[trigger] r[i].0 == k;
            assert(m[i + 1].0 == k);
            assert(chars_lt(m[0].0, m[i + 1].0));
            lemma_chars_lt_irreflexive(k);
        }
    } else {
        if exists|i: int| 0 <= i < m.len() && #[trigger] m[i].0 == k {
            let i = choose|i: int| 0 <= i < m.len() && #[trigger] m[i].0 == k;
            assert(i > 0);
            assert(r[i - 1].0 == k);
            lemma_lookup_at(m, i);
            lemma_lookup_at(r, i - 1);
        } else {
            if exists|i: int| 0 <= i < r.len() && #[trigger] r[i].0 == k {
                let i = choose|i: int| 0 <= i < r.len() && #[trigger] r[i].0 == k;
                assert(m[i + 1].0 == k);
            }
        }
    }
}

/// All the categories, with names in sorted order and each name once.
#[derive(Debug)]
pub struct Config {
    categories: Vec<Category>,
}

impl View for Config {
    type V = Seq<CategoryModel>;

    closed spec fn view(&self) -> Seq<CategoryModel> {
        self.categories@.map_values(|c: Category| c@)
    }
}

impl Config {
    #[verifier::type_invariant]
    spec fn names_sorted(self) -> bool {
        sorted_names(self@)
    }

    /// A configuration without categories.
    pub fn new() -> (r: Config)
        ensures
            r@ == Seq::<CategoryModel>::empty(),
    {
        let r = Config { categories: Vec::new() };
        assert(r@ =~= Seq::<CategoryModel>::empty());
        r
    }

    /// The categories in order of their names.
    pub fn categories(&self) -> (r: &Vec<Category>)
        ensures
            r@.map_values(|c: Category| c@) == self@,
            sorted_names(self@),
    {
        proof {
            use_type_invariant(self);
        }
        &self.categories
    }

    pub fn is_empty(&self) -> (r: bool)
        ensures
            r == (self@.len() == 0),
    {
        self.categories.len() == 0
    }

    /// The position of category `name`, or where it would go.
    fn position(&self, name: &str) -> (r: (usize, bool))
        ensures
            r.0 <= self@.len(),
            r.1 ==> r.0 < self@.len() && self@[r.0 as int].0 == name@,
            forall|i: int| 0 <= i < r.0 ==> chars_lt(#[trigger] self@[i].0, name@),
            !r.1 ==> forall|i: int| r.0 <= i < self@.len() ==> chars_lt(name@, #[trigger] self@[i].0),
            sorted_names(self@),
    {
        proof {
            use_type_invariant(self);
        }
        let mut i: usize = 0;
        while i < self.categories.len()
            invariant
                i <= self@.len(),
                self@.len() == self.categories@.len(),
                self@ == self.categories@.map_values(|c: Category| c@),
                sorted_names(self@),
                forall|j: int| 0 <= j < i ==> chars_lt(#[trigger] self@[j].0, name@),
            decreases self.categories@.len() - i,
        {
            let here = self.categories[i].name.as_str();
            assert(self@[i as int].0 == here@);
            if str_eq(here, name) {
                return (i, true);
            }
            if !str_lt(here, name) {
                proof {
                    lemma_chars_lt_total(here@, name@);
                    assert forall|j: int| i <= j < self@.len() implies chars_lt(
                        name@,
                        #[trigger] self@[j].0,
                    ) by {
                        if j > i {
                            assert(chars_lt(self@[i as int].0, self@[j].0));
                            lemma_chars_lt_transitive(name@, here@, self@[j].0);
                        }
                    }
                }
                return (i, false);
            }
            i = i + 1;
        }
        (i, false)
    }

    /// The commands of category `name`.
    pub fn get(&self, name: &str) -> (r: Option<&Vec<CommandEntry>>)
        ensures
            match r {
                Some(v) => lookup(self@, name@) == Some(entries_model(v@)),
                None => lookup(self@, name@) is None,
            },
    {
        let (i, found) = self.position(name);
        if found {
            proof {
                lemma_lookup_at(self@, i as int);
            }
            Some(&self.categories[i].entries)
        } else {
            proof {
                if exists|j: int| 0 <= j < self@.len() && #[trigger] self@[j].0 == name@ {
                    let j = choose|j: int| 0 <= j < self@.len() && #[trigger] self@[j].0 == name@;
                    lemma_chars_lt_irreflexive(name@);
                }
            }
            None
        }
    }

    /// Whether there is a category `name`.
    pub fn contains_key(&self, name: &str) -> (r: bool)
        ensures
            r == lookup(self@, name@) is Some,
    {
        self.get(name).is_some()
    }

    /// Sets the commands of category `name`, creating it if it is missing.
    pub fn insert(&mut self, name: String, entries: Vec<CommandEntry>)
        ensures
            updated(old(self)@, final(self)@, name@, entries_model(entries@)),
    {
        let (i, found) = self.position(name.as_str());
        let ghost old_m = self@;
        let ghost new_name = name@;
        let ghost new_es = entries_model(entries@);
        let cat = Category { name, entries };
        assert(cat@ == (new_name, new_es));
        let mut cats = Vec::new();
        std::mem::swap(&mut cats, &mut self.categories);
        if found {
            cats.set(i, cat);
        } else {
            cats.insert(i, cat);
        }
        let ghost m = cats@.map_values(|c: Category| c@);
        proof {
            if found {
                assert(m =~= old_m.update(i as int, (new_name, new_es)));
            } else {
                assert(m =~= old_m.insert(i as int, (new_name, new_es)));
            }
            assert(sorted_names(m)) by {
                assert forall|a: int, b: int| 0 <= a < b < m.len() implies chars_lt(
                    #[trigger] m[a].0,
                    #[trigger] m[b].0,
                ) by {
                    if found {
                        if a != i && b != i {
                            assert(chars_lt(old_m[a].0, old_m[b].0));
                        } else if a == i {
                            assert(chars_lt(old_m[a].0, old_m[b].0));
                        } else {
                            assert(chars_lt(old_m[a].0, old_m[b].0));
                        }
                    } else {
                        if b < i {
                            assert(chars_lt(old_m[a].0, old_m[b].0));
                        } else if a > i {
                            assert(chars_lt(old_m[a - 1].0, old_m[b - 1].0));
                        } else if a == i {
                            assert(chars_lt(new_name, old_m[b - 1].0));
                        } else if b == i {
                            assert(chars_lt(old_m[a].0, new_name));
                        } else {
                            assert(chars_lt(old_m[a].0, new_name));
                            assert(chars_lt(new_name, old_m[b - 1].0));
                            lemma_chars_lt_transitive(old_m[a].0, new_name, old_m[b - 1].0);
                        }
                    }
                }
            }
            assert forall|k: Seq<char>|
                #[trigger] lookup(m, k) == if k == new_name {
                    Some(new_es)
                } else {
                    lookup(old_m, k)
                } by {
                if k == new_name {
                    lemma_lookup_at(m, i as int);
                } else {
                    if exists|j: int| 0 <= j < old_m.len() && #[trigger] old_m[j].0 == k {
                        let j = choose|j: int| 0 <= j < old_m.len() && #[trigger] old_m[j].0 == k;
                        lemma_lookup_at(old_m, j);
                        let jm = if !found && j >= i {
                            j + 1
                        } else {
                            j
                        };
                        assert(m[jm] == old_m[j]);
                        lemma_lookup_at(m, jm);
                    } else {
                        if exists|j: int| 0 <= j < m.len() && #[trigger] m[j].0 == k {
                            let j = choose|j: int| 0 <= j < m.len() && #[trigger] m[j].0 == k;
                            if found || j < i {
                                assert(old_m[j].0 == k);
                            } else {
                                assert(old_m[j - 1].0 == k);
                            }
                        }
                    }
                }
            }
        }
        self.categories = cats;
    }

    /// Appends `entry` to category `name`, creating the category if it is
    /// missing; tells whether it was created.
    pub fn push_entry(&mut self, name: String, entry: CommandEntry) -> (created: bool)
        ensures
            created == lookup(old(self)@, name@) is None,
            updated(old(self)@, final(self)@, name@, appended(old(self)@, name@, entry@)),
    {
        let ghost e = entry@;
        let mut entries = match self.get(name.as_str()) {
            Some(v) => v.clone(),
            None => Vec::new(),
        };
        let created = !self.contains_key(name.as_str());
        proof {
            if !created {
                assert(entries_model(entries@) =~= lookup(self@, name@).unwrap());
            }
        }
        entries.push(entry);
        proof {
            assert(entries_model(entries@) =~= appended(self@, name@, e));
        }
        self.insert(name, entries);
        created
    }

    /// Removes the command at `index` from category `name`.
    pub fn remove_entry(&mut self, name: &str, index: usize)
        requires
            lookup(old(self)@, name@) is Some,
            index < lookup(old(self)@, name@).unwrap().len(),
        ensures
            updated(
                old(self)@,
                final(self)@,
                name@,
                lookup(old(self)@, name@).unwrap().remove(index as int),
            ),
    {
        let mut entries = match self.get(name) {
            Some(v) => v.clone(),
            None => Vec::new(),
        };
        assert(entries_model(entries@) =~= lookup(self@, name@).unwrap());
        entries.remove(index);
        assert(entries_model(entries@) =~= lookup(self@, name@).unwrap().remove(index as int));
        self.insert(owned(name), entries);
    }

    /// Whether two configurations hold the same categories and commands.
    pub fn equals(&self, other: &Config) -> (r: bool)
        ensures
            r == (self@ == other@),
    {
        if self.categories.len() != other.categories.len() {
            assert(self@.len() != other@.len());
            return false;
        }
        let mut i: usize = 0;
        while i < self.categories.len()
            invariant
                i <= self@.len(),
                self@.len() == other@.len(),
                self@.len() == self.categories@.len(),
                other@.len() == other.categories@.len(),
                self@ == self.categories@.map_values(|c: Category| c@),
                other@ == other.categories@.map_values(|c: Category| c@),
                forall|j: int| 0 <= j < i ==> self@[j] == other@[j],
            decreases self.categories@.len() - i,
        {
            let a = &self.categories[i];
            let b = &other.categories[i];
            assert(self@[i as int] == a@ && other@[i as int] == b@);
            if !str_eq(a.name.as_str(), b.name.as_str()) || !entries_equal(&a.entries, &b.entries) {
                return false;
            }
            i = i + 1;
        }
        assert(self@ =~= other@);
        true
    }
}

/// Whether two lists of commands are the same.
pub fn entries_equal(a: &Vec<CommandEntry>, b: &Vec<CommandEntry>) -> (r: bool)
    ensures
        r == (entries_model(a@) == entries_model(b@)),
{
    if a.len() != b.len() {
        assert(entries_model(a@).len() != entries_model(b@).len());
        return false;
    }
    let mut i: usize = 0;
    while i < a.len()
        invariant
            i <= a@.len(),
            a@.len() == b@.len(),
            forall|j: int| 0 <= j < i ==> a@[j]@ == b@[j]@,
        decreases a@.len() - i,
    {
        if !str_eq(a[i].command.as_str(), b[i].command.as_str()) || !str_eq(
            a[i].description.as_str(),
            b[i].description.as_str(),
        ) {
            assert(entries_model(a@)[i as int] != entries_model(b@)[i as int]);
            return false;
        }
        i = i + 1;
    }
    assert(entries_model(a@) =~= entries_model(b@));
    true
}

/// Checks every category name and every entry of a configuration, and
/// reports the first problem.
pub fn validate_config(config: &Config) -> (r: Result<(), String>)
    ensures
        match r {
            Ok(()) => config_problem(config@) is None,
            Err(m) => config_problem(config@) == Some(m@),
        },
{
    let cats = config.categories();
    let ghost m = config@;
    assert(m.subrange(0, m.len() as int) =~= m);
    let mut i: usize = 0;
    while i < cats.len()
        invariant
            i <= cats@.len(),
            m == cats@.map_values(|c: Category| c@),
            m == config@,
            m.len() == cats@.len(),
            config_problem(m) == config_problem(m.subrange(i as int, m.len() as int)),
        decreases cats@.len() - i,
    {
        let ghost rest = m.subrange(i as int, m.len() as int);
        let cat = &cats[i];
        assert(rest[0] == cat@);
        match validate_category(cat.name.as_str()) {
            Err(e) => {
                return Err(e);
            },
            Ok(()) => {},
        }
        match validate_entries(&cat.entries) {
            Err(e) => {
                return Err(join3("category \"", cat.name.as_str(), "\": ").concat(e));
            },
            Ok(()) => {},
        }
        assert(rest.drop_first() =~= m.subrange(i + 1, m.len() as int));
        i = i + 1;
    }
    assert(m.subrange(i as int, m.len() as int) =~= Seq::<CategoryModel>::empty());
    Ok(())
}

} // verus!
