//! Statements for the store: their text, and the values bound to them.
use crate::shared::ids::UserId;
use crate::text::{decimal, digit};
use vstd::prelude::*;

verus! {

/// A value bound to a statement.
#[derive(Debug)]
pub enum SqlValue {
    Null,
    Text(String),
    Integer(i64),
    /// A single-precision number, by its bit pattern.
    Real(u32),
    Blob(Vec<u8>),
}

pub enum SqlView {
    Null,
    Text(Seq<char>),
    Integer(i64),
    Real(u32),
    Blob(Seq<u8>),
}

impl View for SqlValue {
    type V = SqlView;

    open spec fn view(&self) -> SqlView {
        match self {
            SqlValue::Null => SqlView::Null,
            SqlValue::Text(t) => SqlView::Text(t@),
            SqlValue::Integer(n) => SqlView::Integer(*n),
            SqlValue::Real(bits) => SqlView::Real(*bits),
            SqlValue::Blob(bytes) => SqlView::Blob(bytes@),
        }
    }
}

/// A statement with its values, in the order of their numbers.
#[derive(Debug)]
pub struct Statement {
    pub sql: String,
    pub params: Vec<SqlValue>,
}

pub open spec fn param_views(params: Seq<SqlValue>) -> Seq<SqlView> {
    params.map_values(|p: SqlValue| p@)
}

/// Whether a text holds another.
pub open spec fn holds_text(text: Seq<char>, part: Seq<char>) -> bool {
    exists|i: int|
        0 <= i && i + part.len() <= text.len() && #[trigger] text.subrange(i, i + part.len())
            == part
}

/// The condition that a row belongs to the user bound at a place.
pub open spec fn owner_clause(place: int) -> Seq<char> {
    "user_id = ?"@ + decimal((place + 1) as nat)
}

impl Statement {
    /// `self` is this text with these values.
    pub open spec fn is(self, sql: Seq<char>, params: Seq<SqlView>) -> bool {
        self.sql@ == sql && param_views(self.params@) == params
    }

    /// The statement asks of a row that it belongs to this user: it holds the
    /// condition, and the user is what is bound there.
    pub open spec fn is_scoped_to(self, user: UserId) -> bool {
        exists|place: int|
            0 <= place < self.params@.len() && param_views(self.params@)[place] == SqlView::Text(
                user.text(),
            ) && holds_text(self.sql@, #[trigger] owner_clause(place))
    }
}

/// The condition on the owner, where the user is bound first or second.
pub proof fn owner_clauses_name_their_place()
    ensures
        owner_clause(0) == "user_id = ?1"@,
        owner_clause(1) == "user_id = ?2"@,
{
    reveal_strlit("user_id = ?");
    reveal_strlit("user_id = ?1");
    reveal_strlit("user_id = ?2");
    assert(decimal(1) == seq![digit(1)]);
    assert(decimal(2) == seq![digit(2)]);
    assert(owner_clause(0) =~= "user_id = ?1"@);
    assert(owner_clause(1) =~= "user_id = ?2"@);
}

/// A text holds what stands in it.
pub proof fn lemma_holds_at(text: Seq<char>, part: Seq<char>, i: int)
    requires
        0 <= i && i + part.len() <= text.len(),
        text.subrange(i, i + part.len()) == part,
    ensures
        holds_text(text, part),
{
}

/// What a text holds, a longer one holds too.
pub proof fn longer_texts_hold_as_much(
    before: Seq<char>,
    text: Seq<char>,
    after: Seq<char>,
    part: Seq<char>,
)
    requires
        holds_text(text, part),
    ensures
        holds_text(before + text + after, part),
{
    let i = choose|i: int|
        0 <= i && i + part.len() <= text.len() && #[trigger] text.subrange(i, i + part.len())
            == part;
    let whole = before + text + after;
    let j = before.len() + i;
    assert(whole.subrange(j, j + part.len()) =~= part);
}

/// A statement with the condition, and the user bound where it says, is
/// scoped to that user.
pub proof fn lemma_scoped(statement: Statement, user: UserId, place: int)
    requires
        0 <= place < param_views(statement.params@).len(),
        param_views(statement.params@)[place] == SqlView::Text(user.text()),
        holds_text(statement.sql@, owner_clause(place)),
    ensures
        statement.is_scoped_to(user),
{
}

pub open spec fn optional_text(text: Option<Seq<char>>) -> SqlView {
    match text {
        Some(t) => SqlView::Text(t),
        None => SqlView::Null,
    }
}

pub fn text_param(text: &str) -> (param: SqlValue)
    ensures
        param@ == SqlView::Text(text@),
{
    SqlValue::Text(text.to_owned())
}

pub fn optional_param(text: &Option<String>) -> (param: SqlValue)
    ensures
        param@ == optional_text(crate::memories::domain::memory::option_text(*text)),
{
    match text {
        Some(t) => SqlValue::Text(t.clone()),
        None => SqlValue::Null,
    }
}

} // verus!
