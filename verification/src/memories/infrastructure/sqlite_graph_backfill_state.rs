//! Where a user's relation backfill left off.
//!
//! The cursor is the creation time of the newest memory already looked at. It
//! marks how far the backfill has looked, not how far it has written, so that
//! a memory without relations is looked at once.
use super::sql::{
    lemma_holds_at, lemma_scoped, owner_clause, owner_clauses_name_their_place, param_views, SqlValue,
    SqlView, Statement,
};
use crate::shared::error::{RaError, Result};
use crate::shared::ids::UserId;
use crate::shared::time::{rfc3339_complaint, rfc3339_instant, Timestamp};
use crate::text::{debug_text, quote};
use vstd::prelude::*;
use vstd::string::StringExecFns;

verus! {

pub open spec fn cursor_complaint(raw: Seq<char>) -> Seq<char> {
    "stored backfill cursor "@ + debug_text(raw) + ": "@ + rfc3339_complaint(raw)
}

/// The backfill state's rules.
#[derive(Debug, Clone, Copy)]
pub struct SqliteGraphBackfillState;

impl SqliteGraphBackfillState {
    pub fn new() -> (state: SqliteGraphBackfillState) {
        SqliteGraphBackfillState
    }

    /// Reads the caller's cursor.
    pub fn read_cursor(&self, user: UserId) -> (statement: Statement)
        ensures
            statement.is_scoped_to(user),
            statement.is(
                "SELECT relations_cursor FROM graph_backfill_state WHERE user_id = ?1"@,
                seq![SqlView::Text(user.text())],
            ),
    {
        let mut params: Vec<SqlValue> = Vec::new();
        params.push(SqlValue::Text(user.to_text()));
        let statement = Statement {
            sql: "SELECT relations_cursor FROM graph_backfill_state WHERE user_id = ?1".to_owned(),
            params,
        };
        assert(param_views(statement.params@) =~= seq![SqlView::Text(user.text())]);
        proof {
            reveal_strlit("SELECT relations_cursor FROM graph_backfill_state WHERE user_id = ?1");
            reveal_strlit("user_id = ?1");
            assert(statement.sql@.subrange(56, 68) =~= "user_id = ?1"@);
            owner_clauses_name_their_place();
            lemma_holds_at(statement.sql@, owner_clause(0), 56);
            lemma_scoped(statement, user, 0);
        }
        statement
    }

    /// The cursor that a row holds; none, where there is no row.
    pub fn relations_cursor(&self, row: Option<String>) -> (cursor: Result<Option<Timestamp>>)
        ensures
            match row {
                None => cursor matches Ok(None),
                Some(raw) => match cursor {
                    Ok(Some(time)) => rfc3339_instant(raw@) == Some(time.parts()),
                    Ok(None) => false,
                    Err(e) => rfc3339_instant(raw@) is None && e is Internal && e.text()
                        == cursor_complaint(raw@),
                },
            },
    {
        match row {
            None => Ok(None),
            Some(raw) => match Timestamp::parse(raw.as_str()) {
                Ok(time) => Ok(Some(time)),
                Err(reason) => {
                    let mut sentence = "stored backfill cursor ".to_owned();
                    sentence.append(quote(raw.as_str()).as_str());
                    sentence.append(": ");
                    sentence.append(reason.as_str());
                    Err(RaError::Internal(sentence))
                },
            },
        }
    }

    /// Records how far the caller's backfill has reached.
    pub fn set_relations_cursor(&self, user: UserId, cursor: Timestamp) -> (statement: Statement)
        ensures
            statement.is(
                "INSERT INTO graph_backfill_state (user_id, relations_cursor) VALUES (?1, ?2) ON CONFLICT (user_id) DO UPDATE SET relations_cursor = excluded.relations_cursor"@,
                seq![SqlView::Text(user.text()), SqlView::Text(cursor.text())],
            ),
            cursor.writable() ==> rfc3339_instant(cursor.text()) == Some(cursor.parts()),
    {
        let mut params: Vec<SqlValue> = Vec::new();
        params.push(SqlValue::Text(user.to_text()));
        params.push(SqlValue::Text(cursor.to_text()));
        let statement = Statement {
            sql:
                "INSERT INTO graph_backfill_state (user_id, relations_cursor) VALUES (?1, ?2) ON CONFLICT (user_id) DO UPDATE SET relations_cursor = excluded.relations_cursor".to_owned(),
            params,
        };
        assert(param_views(statement.params@) =~= seq![
            SqlView::Text(user.text()),
            SqlView::Text(cursor.text()),
        ]);
        statement
    }
}

} // verus!
