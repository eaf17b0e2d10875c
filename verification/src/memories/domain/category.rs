//! The memory taxonomy: a closed set of categories, plus those that a
//! deployment configures.
//!
//! Free-form labels fragment (`prefs`, `preferences`, `user-prefs`), and a
//! fragmented label space makes filtered retrieval useless. Tags stay
//! free-form; the category is the axis that is filtered on.
use crate::shared::error::{RaError, Result};
use crate::text::{ascii_lower, ascii_lowercase, debug_text, fold, folded, join, joined, quote};
use crate::text::{same_text, texts};
use vstd::prelude::*;
use vstd::string::StringExecFns;

verus! {

#[derive(Debug, Clone, PartialEq, Eq, Hash, PartialOrd, Ord)]
pub enum Category {
    /// Style, tooling and patterns: "prefers pnpm", "no default exports".
    PreferenceCoding,
    /// Life preferences: "vegetarian", "prefers morning meetings".
    PreferencePersonal,
    /// An architecture or product decision *and its rationale*.
    Decision,
    /// Implemented features, stack facts, project constraints.
    FactProject,
    /// People, relationships, roles.
    FactPerson,
    /// What happened: "the pgvector migration failed because...".
    Experience,
    /// A learned procedure.
    Skill,
    /// Pointers outward: URLs, tickets, dashboards.
    Reference,
    /// A deployment-defined category from configuration.
    Custom(String),
}

/// A category as a value of its own.
pub enum CategoryView {
    PreferenceCoding,
    PreferencePersonal,
    Decision,
    FactProject,
    FactPerson,
    Experience,
    Skill,
    Reference,
    Custom(Seq<char>),
}

impl View for Category {
    type V = CategoryView;

    open spec fn view(&self) -> CategoryView {
        match self {
            Category::PreferenceCoding => CategoryView::PreferenceCoding,
            Category::PreferencePersonal => CategoryView::PreferencePersonal,
            Category::Decision => CategoryView::Decision,
            Category::FactProject => CategoryView::FactProject,
            Category::FactPerson => CategoryView::FactPerson,
            Category::Experience => CategoryView::Experience,
            Category::Skill => CategoryView::Skill,
            Category::Reference => CategoryView::Reference,
            Category::Custom(name) => CategoryView::Custom(name@),
        }
    }
}

impl CategoryView {
    /// The name that the category goes by.
    pub open spec fn name(self) -> Seq<char> {
        match self {
            CategoryView::PreferenceCoding => "preference.coding"@,
            CategoryView::PreferencePersonal => "preference.personal"@,
            CategoryView::Decision => "decision"@,
            CategoryView::FactProject => "fact.project"@,
            CategoryView::FactPerson => "fact.person"@,
            CategoryView::Experience => "experience"@,
            CategoryView::Skill => "skill"@,
            CategoryView::Reference => "reference"@,
            CategoryView::Custom(name) => name,
        }
    }

    pub open spec fn is_built_in(self) -> bool {
        !(self is Custom)
    }

    /// Place in the taxonomy.
    pub open spec fn place(self) -> int {
        match self {
            CategoryView::PreferenceCoding => 0,
            CategoryView::PreferencePersonal => 1,
            CategoryView::Decision => 2,
            CategoryView::FactProject => 3,
            CategoryView::FactPerson => 4,
            CategoryView::Experience => 5,
            CategoryView::Skill => 6,
            CategoryView::Reference => 7,
            CategoryView::Custom(_) => 8,
        }
    }
}

/// The built-in category of a name.
pub open spec fn built_in(name: Seq<char>) -> Option<CategoryView> {
    if name == "preference.coding"@ {
        Some(CategoryView::PreferenceCoding)
    } else if name == "preference.personal"@ {
        Some(CategoryView::PreferencePersonal)
    } else if name == "decision"@ {
        Some(CategoryView::Decision)
    } else if name == "fact.project"@ {
        Some(CategoryView::FactProject)
    } else if name == "fact.person"@ {
        Some(CategoryView::FactPerson)
    } else if name == "experience"@ {
        Some(CategoryView::Experience)
    } else if name == "skill"@ {
        Some(CategoryView::Skill)
    } else if name == "reference"@ {
        Some(CategoryView::Reference)
    } else {
        None
    }
}

/// Whether a name is among the configured ones, case of ASCII letters aside.
pub open spec fn is_configured(name: Seq<char>, extras: Seq<Seq<char>>) -> bool {
    exists|i: int| 0 <= i < extras.len() && ascii_lower(#[trigger] extras[i]) == ascii_lower(name)
}

/// The category that a raw name denotes: a built-in one first, then a
/// configured one, else none.
pub open spec fn category_of(raw: Seq<char>, extras: Seq<Seq<char>>) -> Option<CategoryView> {
    let name = folded(raw);
    if name.len() == 0 {
        None
    } else if built_in(name) is Some {
        built_in(name)
    } else if is_configured(name, extras) {
        Some(CategoryView::Custom(name))
    } else {
        None
    }
}

/// The category that a stored name denotes: any name at all is one.
pub open spec fn stored_category(raw: Seq<char>) -> CategoryView {
    match category_of(raw, Seq::empty()) {
        Some(category) => category,
        None => CategoryView::Custom(raw),
    }
}

/// The names of the built-in categories, in taxonomy order.
pub open spec fn built_in_names() -> Seq<Seq<char>> {
    seq![
        "preference.coding"@,
        "preference.personal"@,
        "decision"@,
        "fact.project"@,
        "fact.person"@,
        "experience"@,
        "skill"@,
        "reference"@,
    ]
}

/// Why a name that denotes no category is refused.
pub open spec fn category_complaint(raw: Seq<char>, extras: Seq<Seq<char>>) -> Seq<char> {
    if folded(raw).len() == 0 {
        "category is empty"@
    } else {
        "unknown category "@ + debug_text(folded(raw)) + " (expected one of "@ + joined(
            built_in_names(),
            ", "@,
        ) + (if extras.len() == 0 {
            Seq::empty()
        } else {
            ", or a configured extra: "@ + joined(extras, ", "@)
        }) + ")"@
    }
}

/// Every built-in category, in taxonomy order.
pub fn default_categories() -> (categories: Vec<Category>)
    ensures
        categories@ == seq![
            Category::PreferenceCoding,
            Category::PreferencePersonal,
            Category::Decision,
            Category::FactProject,
            Category::FactPerson,
            Category::Experience,
            Category::Skill,
            Category::Reference,
        ],
{
    let mut categories: Vec<Category> = Vec::new();
    categories.push(Category::PreferenceCoding);
    categories.push(Category::PreferencePersonal);
    categories.push(Category::Decision);
    categories.push(Category::FactProject);
    categories.push(Category::FactPerson);
    categories.push(Category::Experience);
    categories.push(Category::Skill);
    categories.push(Category::Reference);
    categories
}

fn built_in_category(name: &str) -> (category: Option<Category>)
    ensures
        match category {
            Some(found) => built_in(name@) == Some(found@),
            None => built_in(name@) is None,
        },
{
    if same_text(name, "preference.coding") {
        Some(Category::PreferenceCoding)
    } else if same_text(name, "preference.personal") {
        Some(Category::PreferencePersonal)
    } else if same_text(name, "decision") {
        Some(Category::Decision)
    } else if same_text(name, "fact.project") {
        Some(Category::FactProject)
    } else if same_text(name, "fact.person") {
        Some(Category::FactPerson)
    } else if same_text(name, "experience") {
        Some(Category::Experience)
    } else if same_text(name, "skill") {
        Some(Category::Skill)
    } else if same_text(name, "reference") {
        Some(Category::Reference)
    } else {
        None
    }
}

fn configured(name: &str, extras: &Vec<String>) -> (found: bool)
    ensures
        found == is_configured(name@, texts(extras@)),
{
    let wanted = ascii_lowercase(name);
    let mut i: usize = 0;
    while i < extras.len()
        invariant
            0 <= i <= extras@.len(),
            wanted@ == ascii_lower(name@),
            forall|j: int| 0 <= j < i ==> ascii_lower(#[trigger] texts(extras@)[j]) != wanted@,
        decreases extras@.len() - i,
    {
        let extra = ascii_lowercase(extras[i].as_str());
        assert(texts(extras@)[i as int] == extras@[i as int]@);
        if extra == wanted {
            return true;
        }
        i += 1;
    }
    false
}

fn built_in_list() -> (names: Vec<String>)
    ensures
        texts(names@) == built_in_names(),
{
    let mut names: Vec<String> = Vec::new();
    names.push("preference.coding".to_owned());
    names.push("preference.personal".to_owned());
    names.push("decision".to_owned());
    names.push("fact.project".to_owned());
    names.push("fact.person".to_owned());
    names.push("experience".to_owned());
    names.push("skill".to_owned());
    names.push("reference".to_owned());
    assert(texts(names@) =~= built_in_names());
    names
}

fn complaint_text(name: &str, extras: &Vec<String>) -> (sentence: String)
    ensures
        sentence@ == "unknown category "@ + debug_text(name@) + " (expected one of "@ + joined(
            built_in_names(),
            ", "@,
        ) + (if extras@.len() == 0 {
            Seq::empty()
        } else {
            ", or a configured extra: "@ + joined(texts(extras@), ", "@)
        }) + ")"@,
{
    let mut sentence = "unknown category ".to_owned();
    sentence.append(quote(name).as_str());
    sentence.append(" (expected one of ");
    sentence.append(join(&built_in_list(), ", ").as_str());
    let ghost prefix = sentence@;
    if extras.len() > 0 {
        let mut tail = ", or a configured extra: ".to_owned();
        tail.append(join(extras, ", ").as_str());
        sentence.append(tail.as_str());
    } else {
        assert(prefix + Seq::empty() =~= prefix);
    }
    sentence.append(")");
    sentence
}

impl Category {
    pub fn as_str(&self) -> (name: &str)
        ensures
            name@ == self@.name(),
    {
        match self {
            Category::PreferenceCoding => "preference.coding",
            Category::PreferencePersonal => "preference.personal",
            Category::Decision => "decision",
            Category::FactProject => "fact.project",
            Category::FactPerson => "fact.person",
            Category::Experience => "experience",
            Category::Skill => "skill",
            Category::Reference => "reference",
            Category::Custom(name) => name.as_str(),
        }
    }

    /// A copy of the category.
    pub fn copy(&self) -> (copy: Category)
        ensures
            copy == *self,
    {
        match self {
            Category::PreferenceCoding => Category::PreferenceCoding,
            Category::PreferencePersonal => Category::PreferencePersonal,
            Category::Decision => Category::Decision,
            Category::FactProject => Category::FactProject,
            Category::FactPerson => Category::FactPerson,
            Category::Experience => Category::Experience,
            Category::Skill => Category::Skill,
            Category::Reference => Category::Reference,
            Category::Custom(name) => Category::Custom(name.clone()),
        }
    }

    /// Parses a category name, accepting any built-in.
    ///
    /// Unknown names are refused: a typo like `preference.codeing` must not
    /// quietly create a category that nothing will ever match. Deployments
    /// widen the set through [`Category::parse_with_extras`].
    pub fn parse(raw: &str) -> (category: Result<Category>)
        ensures
            match category {
                Ok(found) => category_of(raw@, Seq::empty()) == Some(found@),
                Err(e) => category_of(raw@, Seq::empty()) is None && e is Validation && e.text()
                    == category_complaint(raw@, Seq::empty()),
            },
    {
        let none: Vec<String> = Vec::new();
        let category = Category::parse_with_extras(raw, &none);
        assert(texts(none@) =~= Seq::empty());
        category
    }

    /// Parses a category name, additionally accepting `extras`.
    pub fn parse_with_extras(raw: &str, extras: &Vec<String>) -> (category: Result<Category>)
        ensures
            match category {
                Ok(found) => category_of(raw@, texts(extras@)) == Some(found@),
                Err(e) => category_of(raw@, texts(extras@)) is None && e is Validation && e.text()
                    == category_complaint(raw@, texts(extras@)),
            },
    {
        let name = fold(raw);
        if name.as_str().is_empty() {
            return Err(RaError::Validation("category is empty".to_owned()));
        }
        match built_in_category(name.as_str()) {
            Some(known) => Ok(known),
            None => {
                if configured(name.as_str(), extras) {
                    Ok(Category::Custom(name))
                } else {
                    Err(RaError::Validation(complaint_text(name.as_str(), extras)))
                }
            },
        }
    }

    /// Rebuilds a category read from storage.
    ///
    /// Never fails: a row written when the taxonomy was wider is historical
    /// fact, and refusing to load it would hide a user's own memory.
    pub fn from_stored(raw: &str) -> (category: Category)
        ensures
            category@ == stored_category(raw@),
    {
        match Category::parse(raw) {
            Ok(category) => category,
            Err(_) => Category::Custom(raw.to_owned()),
        }
    }

    /// Whether two categories are the same.
    pub fn same(&self, other: &Category) -> (same: bool)
        ensures
            same == (self@ == other@),
    {
        match (self, other) {
            (Category::Custom(a), Category::Custom(b)) => *a == *b,
            _ => self.place() == other.place(),
        }
    }

    /// Place in the taxonomy; configured categories share the last one.
    fn place(&self) -> (place: u8)
        ensures
            place == self@.place(),
    {
        match self {
            Category::PreferenceCoding => 0,
            Category::PreferencePersonal => 1,
            Category::Decision => 2,
            Category::FactProject => 3,
            Category::FactPerson => 4,
            Category::Experience => 5,
            Category::Skill => 6,
            Category::Reference => 7,
            Category::Custom(_) => 8,
        }
    }
}

impl std::str::FromStr for Category {
    type Err = RaError;

    fn from_str(raw: &str) -> (category: Result<Category>)
        ensures
            match category {
                Ok(found) => category_of(raw@, Seq::empty()) == Some(found@),
                Err(e) => category_of(raw@, Seq::empty()) is None && e is Validation && e.text()
                    == category_complaint(raw@, Seq::empty()),
            },
    {
        Category::parse(raw)
    }
}

/// The built-in names are trimmed, in lower case, and pairwise different.
proof fn lemma_built_in_names(category: CategoryView)
    requires
        category.is_built_in(),
    ensures
        folded(category.name()) == category.name(),
        category.name().len() > 0,
        built_in(category.name()) == Some(category),
{
    reveal_strlit("preference.coding");
    reveal_strlit("preference.personal");
    reveal_strlit("decision");
    reveal_strlit("fact.project");
    reveal_strlit("fact.person");
    reveal_strlit("experience");
    reveal_strlit("skill");
    reveal_strlit("reference");
    let name = category.name();
    assert forall|i: int| 0 <= i < name.len() implies ascii_lower(name)[i] == name[i] by {
        assert(0 <= i < 19);
        assert(i == 0 || i == 1 || i == 2 || i == 3 || i == 4 || i == 5 || i == 6 || i == 7 || i == 8 || i == 9 || i == 10 || i == 11 || i == 12 || i == 13 || i == 14 || i == 15 || i == 16 || i == 17 || i == 18);
    }
    assert(ascii_lower(name) =~= name);
    crate::text::trimming_keeps_trimmed(name);
    let lengths = (
        "preference.coding"@.len(),
        "preference.personal"@.len(),
        "decision"@.len(),
        "fact.project"@.len(),
        "fact.person"@.len(),
        "experience"@.len(),
        "skill"@.len(),
        "reference"@.len(),
    );
    assert(lengths == (17nat, 19nat, 8nat, 12nat, 11nat, 10nat, 5nat, 9nat));
}

/// Every built-in category is read back from its own name, whatever is
/// configured beside it: a configured name never shadows a built-in one.
pub proof fn built_ins_round_trip(category: CategoryView, extras: Seq<Seq<char>>)
    requires
        category.is_built_in(),
    ensures
        category_of(category.name(), extras) == Some(category),
        stored_category(category.name()) == category,
{
    lemma_built_in_names(category);
}

/// Reading a category ignores the case of ASCII letters and the white space
/// around the name.
pub proof fn parsing_ignores_case_and_margins(a: Seq<char>, b: Seq<char>, extras: Seq<Seq<char>>)
    requires
        folded(a) == folded(b),
    ensures
        category_of(a, extras) == category_of(b, extras),
{
}

/// A stored name that denotes no built-in category is kept as it was written.
pub proof fn stored_names_survive(raw: Seq<char>)
    requires
        built_in(folded(raw)) is None,
    ensures
        stored_category(raw) == CategoryView::Custom(raw),
        stored_category(raw).name() == raw,
{
    if folded(raw).len() > 0 {
        assert(!is_configured(folded(raw), Seq::empty()));
    }
}

/// A category that was read, built-in or configured, is written under a name
/// that reads as the same category.
pub proof fn parsed_categories_round_trip(raw: Seq<char>, extras: Seq<Seq<char>>)
    requires
        category_of(raw, extras) is Some,
    ensures
        category_of(category_of(raw, extras)->0.name(), extras) == category_of(raw, extras),
{
    let category = category_of(raw, extras)->0;
    if category.is_built_in() {
        built_ins_round_trip(category, extras);
    } else {
        crate::text::folding_is_idempotent(raw);
    }
}

/// The taxonomy: eight categories, each under its own name, at its own place.
pub proof fn the_taxonomy_is_fixed()
    ensures
        CategoryView::PreferenceCoding.name() == "preference.coding"@,
        CategoryView::PreferencePersonal.name() == "preference.personal"@,
        CategoryView::Decision.name() == "decision"@,
        CategoryView::FactProject.name() == "fact.project"@,
        CategoryView::FactPerson.name() == "fact.person"@,
        CategoryView::Experience.name() == "experience"@,
        CategoryView::Skill.name() == "skill"@,
        CategoryView::Reference.name() == "reference"@,
        forall|category: CategoryView|
            category.is_built_in() ==> 0 <= #[trigger] category.place() < 8
                && built_in_names()[category.place()] == category.name(),
        built_in_names().len() == 8,
{
}

/// A name denotes a category if it is a built-in one's, or any of those that
/// are configured, case and margins aside; the category goes by that name.
pub proof fn names_denote_what_they_name(raw: Seq<char>, extras: Seq<Seq<char>>)
    ensures
        category_of(raw, extras) is Some <==> folded(raw).len() > 0 && (built_in_names().contains(
            folded(raw),
        ) || exists|i: int|
            0 <= i < extras.len() && ascii_lower(#[trigger] extras[i]) == folded(raw)),
        category_of(raw, extras) matches Some(category) ==> category.name() == folded(raw) && (
        category.is_built_in() <==> built_in_names().contains(folded(raw))),
{
    let name = folded(raw);
    let names = built_in_names();
    crate::text::ascii_lower_is_idempotent(crate::text::trimmed(raw));
    assert(ascii_lower(name) == name);
    if let Some(category) = built_in(name) {
        assert(names[category.place()] == name);
        assert(names.contains(name));
    }
    if names.contains(name) {
        let i = choose|i: int| 0 <= i < names.len() && names[i] == name;
        assert(built_in(name) is Some);
    }
}

/// A name that denotes no category is refused by telling which do: the built-in
/// ones and whatever is configured.
pub proof fn refusals_tell_the_names(raw: Seq<char>, extras: Seq<Seq<char>>)
    requires
        folded(raw).len() > 0,
    ensures
        crate::text::has_part(category_complaint(raw, extras), joined(built_in_names(), ", "@)),
        crate::text::has_part(category_complaint(raw, extras), debug_text(folded(raw))),
        extras.len() > 0 ==> crate::text::has_part(
            category_complaint(raw, extras),
            joined(extras, ", "@),
        ),
{
    let all = category_complaint(raw, extras);
    let named = "unknown category "@ + debug_text(folded(raw)) + " (expected one of "@;
    let listed = joined(built_in_names(), ", "@);
    let rest = all.skip((named + listed).len() as int);
    crate::text::parts_are_had(named, listed, rest);
    assert(named + listed + rest =~= all);
    let after = all.skip(("unknown category "@ + debug_text(folded(raw))).len() as int);
    crate::text::parts_are_had("unknown category "@, debug_text(folded(raw)), after);
    assert("unknown category "@ + debug_text(folded(raw)) + after =~= all);
    if extras.len() > 0 {
        let before = named + listed + ", or a configured extra: "@;
        let end = all.skip((before + joined(extras, ", "@)).len() as int);
        crate::text::parts_are_had(before, joined(extras, ", "@), end);
        assert(before + joined(extras, ", "@) + end =~= all);
    }
}

} // verus!
