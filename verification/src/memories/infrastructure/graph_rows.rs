//! The statements that read a user's entity graph and make its changes.
use super::sql::{
    lemma_holds_at, lemma_scoped, optional_param, optional_text, owner_clause,
    owner_clauses_name_their_place, param_views, text_param, SqlValue, SqlView, Statement,
};
use super::sqlite_entity_graph::{edge_row, Edge, FiledEntity, GraphChange, SqliteEntityGraph};
use super::sqlite_memory_repository::{id_text, time_text};
use crate::shared::ids::{uuid_of_text, MemoryId, UserId};
use vstd::prelude::*;

verus! {

impl SqliteEntityGraph {
    /// Reads the keys of the caller's entities.
    pub fn read_keys(&self, user: UserId) -> (statement: Statement)
        ensures
            statement.is_scoped_to(user),
            statement.is(
                "SELECT DISTINCT entity_key FROM memory_entities WHERE user_id = ?1"@,
                seq![SqlView::Text(user.text())],
            ),
    {
        let statement = for_user(
            "SELECT DISTINCT entity_key FROM memory_entities WHERE user_id = ?1",
            user,
        );
        proof {
            reveal_strlit(
                "SELECT DISTINCT entity_key FROM memory_entities WHERE user_id = ?1",
            );
            reveal_strlit("user_id = ?1");
            assert(statement.sql@.subrange(54, 66) =~= "user_id = ?1"@);
            owner_clauses_name_their_place();
            lemma_holds_at(statement.sql@, owner_clause(0), 54);
            lemma_scoped(statement, user, 0);
        }
        statement
    }

    /// Reads what a walk needs of the caller's edges, the oldest row first.
    pub fn read_edges(&self, user: UserId) -> (statement: Statement)
        ensures
            statement.is_scoped_to(user),
            statement.is(
                "SELECT memory_id, subject_key, object_key, valid_from, invalid_at FROM memory_relations WHERE user_id = ?1 ORDER BY rowid"@,
                seq![SqlView::Text(user.text())],
            ),
    {
        let statement = for_user(
            "SELECT memory_id, subject_key, object_key, valid_from, invalid_at FROM memory_relations WHERE user_id = ?1 ORDER BY rowid",
            user,
        );
        proof {
            reveal_strlit(
                "SELECT memory_id, subject_key, object_key, valid_from, invalid_at FROM memory_relations WHERE user_id = ?1 ORDER BY rowid",
            );
            reveal_strlit("user_id = ?1");
            assert(statement.sql@.subrange(94, 106) =~= "user_id = ?1"@);
            owner_clauses_name_their_place();
            lemma_holds_at(statement.sql@, owner_clause(0), 94);
            lemma_scoped(statement, user, 0);
        }
        statement
    }

    /// The statement that makes a change under the caller. A new edge's row gets
    /// this identifier.
    pub fn statement(&self, user: UserId, change: &GraphChange, row_id: &str) -> (statement:
        Statement)
        ensures
            change is FileEntity || change is FileEdge || statement.is_scoped_to(user),
            makes_change(statement, user, *change, row_id@),
    {
        match change {
            GraphChange::DropEntities(id) => self.drop_entities(user, *id),
            GraphChange::FileEntity(entity) => self.write_entity(user, entity),
            GraphChange::DropEdges { memory_id, keep_closed } => if *keep_closed {
                self.drop_open_edges(user, *memory_id)
            } else {
                self.drop_edges(user, *memory_id)
            },
            GraphChange::FileEdge(edge) => self.write_edge(user, row_id, edge),
            GraphChange::CloseEdges { subject, predicate, object, at, by } => {
                let mut params: Vec<SqlValue> = Vec::new();
                params.push(SqlValue::Text(user.to_text()));
                params.push(SqlValue::Text(at.to_text()));
                params.push(SqlValue::Text(by.to_text()));
                params.push(text_param(subject.as_str()));
                params.push(text_param(predicate.as_str()));
                params.push(text_param(object.as_str()));
                let statement = Statement {
                    sql:
                        "UPDATE memory_relations SET invalid_at = ?2, invalidated_by = ?3 WHERE user_id = ?1 AND subject_key = ?4 AND predicate = ?5 AND object_key <> ?6 AND invalid_at IS NULL AND memory_id <> ?3".to_owned(),
                    params,
                };
                proof {
                    assert(param_views(statement.params@) =~= seq![
                        SqlView::Text(user.text()),
                        SqlView::Text(at.text()),
                        SqlView::Text(by.text()),
                        SqlView::Text(subject@),
                        SqlView::Text(predicate@),
                        SqlView::Text(object@),
                    ]);
                    reveal_strlit(
                        "UPDATE memory_relations SET invalid_at = ?2, invalidated_by = ?3 WHERE user_id = ?1 AND subject_key = ?4 AND predicate = ?5 AND object_key <> ?6 AND invalid_at IS NULL AND memory_id <> ?3",
                    );
                    reveal_strlit("user_id = ?1");
                    assert(statement.sql@.subrange(71, 83) =~= "user_id = ?1"@);
                    owner_clauses_name_their_place();
                    lemma_holds_at(statement.sql@, owner_clause(0), 71);
                    lemma_scoped(statement, user, 0);
                }
                statement
            },
        }
    }

    /// Takes a memory's entities out.
    fn drop_entities(&self, user: UserId, id: MemoryId) -> (statement: Statement)
        ensures
            statement.is_scoped_to(user),
            statement.is(
                "DELETE FROM memory_entities WHERE user_id = ?1 AND memory_id = ?2"@,
                seq![SqlView::Text(user.text()), SqlView::Text(id.text())],
            ),
    {
        let statement = for_memory(
            "DELETE FROM memory_entities WHERE user_id = ?1 AND memory_id = ?2",
            user,
            id,
        );
        proof {
            reveal_strlit(
                "DELETE FROM memory_entities WHERE user_id = ?1 AND memory_id = ?2",
            );
            reveal_strlit("user_id = ?1");
            assert(statement.sql@.subrange(34, 46) =~= "user_id = ?1"@);
            owner_clauses_name_their_place();
            lemma_holds_at(statement.sql@, owner_clause(0), 34);
            lemma_scoped(statement, user, 0);
        }
        statement
    }

    /// Takes a memory's edges out.
    fn drop_edges(&self, user: UserId, id: MemoryId) -> (statement: Statement)
        ensures
            statement.is_scoped_to(user),
            statement.is(
                "DELETE FROM memory_relations WHERE user_id = ?1 AND memory_id = ?2"@,
                seq![SqlView::Text(user.text()), SqlView::Text(id.text())],
            ),
    {
        let statement = for_memory(
            "DELETE FROM memory_relations WHERE user_id = ?1 AND memory_id = ?2",
            user,
            id,
        );
        proof {
            reveal_strlit(
                "DELETE FROM memory_relations WHERE user_id = ?1 AND memory_id = ?2",
            );
            reveal_strlit("user_id = ?1");
            assert(statement.sql@.subrange(35, 47) =~= "user_id = ?1"@);
            owner_clauses_name_their_place();
            lemma_holds_at(statement.sql@, owner_clause(0), 35);
            lemma_scoped(statement, user, 0);
        }
        statement
    }

    /// Takes a memory's open edges out.
    fn drop_open_edges(&self, user: UserId, id: MemoryId) -> (statement: Statement)
        ensures
            statement.is_scoped_to(user),
            statement.is(
                "DELETE FROM memory_relations WHERE user_id = ?1 AND memory_id = ?2 AND invalid_at IS NULL"@,
                seq![SqlView::Text(user.text()), SqlView::Text(id.text())],
            ),
    {
        let statement = for_memory(
            "DELETE FROM memory_relations WHERE user_id = ?1 AND memory_id = ?2 AND invalid_at IS NULL",
            user,
            id,
        );
        proof {
            reveal_strlit(
                "DELETE FROM memory_relations WHERE user_id = ?1 AND memory_id = ?2 AND invalid_at IS NULL",
            );
            reveal_strlit("user_id = ?1");
            assert(statement.sql@.subrange(35, 47) =~= "user_id = ?1"@);
            owner_clauses_name_their_place();
            lemma_holds_at(statement.sql@, owner_clause(0), 35);
            lemma_scoped(statement, user, 0);
        }
        statement
    }

    /// Writes an entity under the caller.
    fn write_entity(&self, user: UserId, entity: &FiledEntity) -> (statement: Statement)
        ensures
            statement.is(
                "INSERT INTO memory_entities (user_id, memory_id, entity_key, name, kind) VALUES (?1, ?2, ?3, ?4, ?5)"@,
                seq![
                    SqlView::Text(user.text()),
                    SqlView::Text(entity.memory_id.text()),
                    SqlView::Text(entity.row@.key),
                    SqlView::Text(entity.row@.name),
                    SqlView::Text(entity.row@.kind),
                ],
            ),
            uuid_of_text(entity.memory_id.text()) == Some(entity.memory_id.value),
    {
        let mut params: Vec<SqlValue> = Vec::new();
        params.push(SqlValue::Text(user.to_text()));
        params.push(SqlValue::Text(entity.memory_id.to_text()));
        params.push(text_param(entity.row.key.as_str()));
        params.push(text_param(entity.row.name.as_str()));
        params.push(text_param(entity.row.kind.as_str()));
        let statement = Statement {
            sql:
                "INSERT INTO memory_entities (user_id, memory_id, entity_key, name, kind) VALUES (?1, ?2, ?3, ?4, ?5)".to_owned(),
            params,
        };
        assert(param_views(statement.params@) =~= seq![
            SqlView::Text(user.text()),
            SqlView::Text(entity.memory_id.text()),
            SqlView::Text(entity.row@.key),
            SqlView::Text(entity.row@.name),
            SqlView::Text(entity.row@.kind),
        ]);
        statement
    }

    /// Writes an edge under the caller, as a row with an identifier of its
    /// own.
    fn write_edge(&self, user: UserId, id: &str, edge: &Edge) -> (statement: Statement)
        ensures
            statement.is(
                "INSERT INTO memory_relations (id, user_id, memory_id, subject_key, predicate, object_key, subject_name, object_name, valid_from, invalid_at, invalidated_by) VALUES (?1, ?2, ?3, ?4, ?5, ?6, ?7, ?8, ?9, ?10, ?11)"@,
                seq![
                    SqlView::Text(id@),
                    SqlView::Text(user.text()),
                    SqlView::Text(edge.memory_id.text()),
                    SqlView::Text(edge@.subject),
                    SqlView::Text(edge@.predicate),
                    SqlView::Text(edge@.object),
                    SqlView::Text(edge@.subject_name),
                    SqlView::Text(edge@.object_name),
                    SqlView::Text(edge.valid_from.text()),
                    optional_text(time_text(edge.invalid_at)),
                    optional_text(id_text(edge.invalidated_by)),
                ],
            ),
    {
        let row = edge_row(edge);
        let mut params: Vec<SqlValue> = Vec::new();
        params.push(text_param(id));
        params.push(SqlValue::Text(user.to_text()));
        params.push(text_param(row.memory_id.as_str()));
        params.push(text_param(row.subject_key.as_str()));
        params.push(text_param(row.predicate.as_str()));
        params.push(text_param(row.object_key.as_str()));
        params.push(text_param(row.subject_name.as_str()));
        params.push(text_param(row.object_name.as_str()));
        params.push(text_param(row.valid_from.as_str()));
        params.push(optional_param(&row.invalid_at));
        params.push(optional_param(&row.invalidated_by));
        let statement = Statement {
            sql:
                "INSERT INTO memory_relations (id, user_id, memory_id, subject_key, predicate, object_key, subject_name, object_name, valid_from, invalid_at, invalidated_by) VALUES (?1, ?2, ?3, ?4, ?5, ?6, ?7, ?8, ?9, ?10, ?11)".to_owned(),
            params,
        };
        assert(param_views(statement.params@) =~= seq![
            SqlView::Text(id@),
            SqlView::Text(user.text()),
            SqlView::Text(edge.memory_id.text()),
            SqlView::Text(edge@.subject),
            SqlView::Text(edge@.predicate),
            SqlView::Text(edge@.object),
            SqlView::Text(edge@.subject_name),
            SqlView::Text(edge@.object_name),
            SqlView::Text(edge.valid_from.text()),
            optional_text(time_text(edge.invalid_at)),
            optional_text(id_text(edge.invalidated_by)),
        ]);
        statement
    }
}

/// `statement` makes the change to the rows of `user`, and to no others.
pub open spec fn makes_change(
    statement: Statement,
    user: UserId,
    change: GraphChange,
    row_id: Seq<char>,
) -> bool {
    match change {
        GraphChange::DropEntities(id) => statement.is(
            "DELETE FROM memory_entities WHERE user_id = ?1 AND memory_id = ?2"@,
            seq![SqlView::Text(user.text()), SqlView::Text(id.text())],
        ),
        GraphChange::FileEntity(entity) => statement.is(
            "INSERT INTO memory_entities (user_id, memory_id, entity_key, name, kind) VALUES (?1, ?2, ?3, ?4, ?5)"@,
            seq![
                SqlView::Text(user.text()),
                SqlView::Text(entity.memory_id.text()),
                SqlView::Text(entity.row@.key),
                SqlView::Text(entity.row@.name),
                SqlView::Text(entity.row@.kind),
            ],
        ),
        GraphChange::DropEdges { memory_id, keep_closed } => statement.is(
            if keep_closed {
                "DELETE FROM memory_relations WHERE user_id = ?1 AND memory_id = ?2 AND invalid_at IS NULL"@
            } else {
                "DELETE FROM memory_relations WHERE user_id = ?1 AND memory_id = ?2"@
            },
            seq![SqlView::Text(user.text()), SqlView::Text(memory_id.text())],
        ),
        GraphChange::FileEdge(edge) => statement.is(
            "INSERT INTO memory_relations (id, user_id, memory_id, subject_key, predicate, object_key, subject_name, object_name, valid_from, invalid_at, invalidated_by) VALUES (?1, ?2, ?3, ?4, ?5, ?6, ?7, ?8, ?9, ?10, ?11)"@,
            seq![
                SqlView::Text(row_id),
                SqlView::Text(user.text()),
                SqlView::Text(edge.memory_id.text()),
                SqlView::Text(edge@.subject),
                SqlView::Text(edge@.predicate),
                SqlView::Text(edge@.object),
                SqlView::Text(edge@.subject_name),
                SqlView::Text(edge@.object_name),
                SqlView::Text(edge.valid_from.text()),
                optional_text(time_text(edge.invalid_at)),
                optional_text(id_text(edge.invalidated_by)),
            ],
        ),
        GraphChange::CloseEdges { subject, predicate, object, at, by } => statement.is(
            "UPDATE memory_relations SET invalid_at = ?2, invalidated_by = ?3 WHERE user_id = ?1 AND subject_key = ?4 AND predicate = ?5 AND object_key <> ?6 AND invalid_at IS NULL AND memory_id <> ?3"@,
            seq![
                SqlView::Text(user.text()),
                SqlView::Text(at.text()),
                SqlView::Text(by.text()),
                SqlView::Text(subject@),
                SqlView::Text(predicate@),
                SqlView::Text(object@),
            ],
        ),
    }
}

/// A statement whose values are the user and a memory.
fn for_memory(sql: &str, user: UserId, id: MemoryId) -> (statement: Statement)
    ensures
        statement.is(sql@, seq![SqlView::Text(user.text()), SqlView::Text(id.text())]),
{
    let mut params: Vec<SqlValue> = Vec::new();
    params.push(SqlValue::Text(user.to_text()));
    params.push(SqlValue::Text(id.to_text()));
    let statement = Statement { sql: sql.to_owned(), params };
    assert(param_views(statement.params@) =~= seq![
        SqlView::Text(user.text()),
        SqlView::Text(id.text()),
    ]);
    statement
}

/// A statement whose one value is the user.
fn for_user(sql: &str, user: UserId) -> (statement: Statement)
    ensures
        statement.is(sql@, seq![SqlView::Text(user.text())]),
{
    let mut params: Vec<SqlValue> = Vec::new();
    params.push(SqlValue::Text(user.to_text()));
    let statement = Statement { sql: sql.to_owned(), params };
    assert(param_views(statement.params@) =~= seq![SqlView::Text(user.text())]);
    statement
}

/// A statement that files an edge, or an entity, tells which one it files, and
/// for whom: two that it could be for are alike.
pub proof fn filings_tell_what_is_filed(
    statement: Statement,
    user: UserId,
    edge: Edge,
    other: Edge,
    entity: FiledEntity,
    another: FiledEntity,
    row_id: Seq<char>,
)
    ensures
        makes_change(statement, user, GraphChange::FileEdge(edge), row_id) && makes_change(
            statement,
            user,
            GraphChange::FileEdge(other),
            row_id,
        ) ==> edge.memory_id.text() == other.memory_id.text() && edge@.subject == other@.subject
            && edge@.predicate == other@.predicate && edge@.object == other@.object
            && edge@.subject_name == other@.subject_name && edge@.object_name == other@.object_name
            && edge.valid_from.text() == other.valid_from.text() && time_text(edge.invalid_at)
            == time_text(other.invalid_at) && id_text(edge.invalidated_by) == id_text(
            other.invalidated_by,
        ),
        makes_change(statement, user, GraphChange::FileEntity(entity), row_id) && makes_change(
            statement,
            user,
            GraphChange::FileEntity(another),
            row_id,
        ) ==> entity.memory_id.text() == another.memory_id.text() && entity.row@.key
            == another.row@.key && entity.row@.name == another.row@.name && entity.row@.kind
            == another.row@.kind,
{
    let values = param_views(statement.params@);
    if makes_change(statement, user, GraphChange::FileEdge(edge), row_id) && makes_change(
        statement,
        user,
        GraphChange::FileEdge(other),
        row_id,
    ) {
        assert(values[2] == SqlView::Text(edge.memory_id.text()) && values[2] == SqlView::Text(
            other.memory_id.text(),
        ));
        assert(values[3] == SqlView::Text(edge@.subject) && values[3] == SqlView::Text(
            other@.subject,
        ));
        assert(values[4] == SqlView::Text(edge@.predicate) && values[4] == SqlView::Text(
            other@.predicate,
        ));
        assert(values[5] == SqlView::Text(edge@.object) && values[5] == SqlView::Text(
            other@.object,
        ));
        assert(values[6] == SqlView::Text(edge@.subject_name) && values[6] == SqlView::Text(
            other@.subject_name,
        ));
        assert(values[7] == SqlView::Text(edge@.object_name) && values[7] == SqlView::Text(
            other@.object_name,
        ));
        assert(values[8] == SqlView::Text(edge.valid_from.text()) && values[8] == SqlView::Text(
            other.valid_from.text(),
        ));
        assert(values[9] == optional_text(time_text(edge.invalid_at)) && values[9]
            == optional_text(time_text(other.invalid_at)));
        assert(values[10] == optional_text(id_text(edge.invalidated_by)) && values[10]
            == optional_text(id_text(other.invalidated_by)));
    }
    if makes_change(statement, user, GraphChange::FileEntity(entity), row_id) && makes_change(
        statement,
        user,
        GraphChange::FileEntity(another),
        row_id,
    ) {
        assert(values[1] == SqlView::Text(entity.memory_id.text()) && values[1] == SqlView::Text(
            another.memory_id.text(),
        ));
        assert(values[2] == SqlView::Text(entity.row@.key) && values[2] == SqlView::Text(
            another.row@.key,
        ));
        assert(values[3] == SqlView::Text(entity.row@.name) && values[3] == SqlView::Text(
            another.row@.name,
        ));
        assert(values[4] == SqlView::Text(entity.row@.kind) && values[4] == SqlView::Text(
            another.row@.kind,
        ));
    }
}

} // verus!
