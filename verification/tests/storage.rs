//! The stores' statements and rows, against SQLite in memory and a text index
//! in memory.
use recuerdos_ai::bootstrap::config::AppConfig;
use recuerdos_ai::memories::domain::category::Category;
use recuerdos_ai::memories::domain::embedder::EmbeddingTask;
use recuerdos_ai::memories::domain::entity_graph::Relation;
use recuerdos_ai::memories::domain::entity_key::EntityKey;
use recuerdos_ai::memories::domain::memory::{
    Entity, Memory, MemoryEdit, MemorySource, NewMemory,
};
use recuerdos_ai::memories::domain::memory_repository::{AuditEntry, AuditOperation};
use recuerdos_ai::memories::infrastructure::graph_run::GraphStep;
use recuerdos_ai::memories::infrastructure::graph_walk::{read_link, Link, Stamp};
use recuerdos_ai::memories::infrastructure::sql::{SqlValue, Statement};
use recuerdos_ai::memories::infrastructure::sqlite_entity_graph::{
    edge_row, EdgeRow, GraphChange, SqliteEntityGraph,
};
use recuerdos_ai::memories::infrastructure::sqlite_graph_backfill_state::SqliteGraphBackfillState;
use recuerdos_ai::memories::infrastructure::sqlite_memory_repository::{
    build_audit_entry, build_memory, decode_entities, decode_tags, MemoryRow, Pin,
    SqliteMemoryRepository,
};
use recuerdos_ai::memories::infrastructure::sqlite_reindexer::{
    ReindexReport, ReindexRow, ReindexStep, SqliteReindexer,
};
use recuerdos_ai::memories::infrastructure::sqlite_vector_index::{to_bytes, SqliteVectorIndex};
use recuerdos_ai::memories::infrastructure::tantivy_text_index::{
    escape_query, IndexStep, SearchReply, TantivyTextIndex,
};
use recuerdos_ai::shared::error::{RaError, Result};
use recuerdos_ai::shared::ids::{MemoryId, UserId};
use recuerdos_ai::shared::time::Timestamp;
use rusqlite::types::Value as Bound;
use rusqlite::{params_from_iter, Connection};
use std::collections::HashMap;
use tantivy::collector::TopDocs;
use tantivy::query::QueryParser;
use tantivy::schema::{Field, Schema, Value, STORED, STRING, TEXT};
use tantivy::{Index, IndexWriter, TantivyDocument, Term};

const DIMENSIONS: usize = 4;
const NOW: i64 = 1_700_000_000;
const HOUR: i64 = 3_600;
const DAY: i64 = 86_400;

fn at(seconds: i64) -> Timestamp {
    Timestamp::new(seconds, 0).unwrap()
}

fn now() -> Timestamp {
    at(NOW)
}

fn bits(values: &[f32]) -> Vec<u32> {
    values.iter().map(|v| v.to_bits()).collect()
}

fn bound(statement: &Statement) -> Vec<Bound> {
    statement
        .params
        .iter()
        .map(|param| match param {
            SqlValue::Null => Bound::Null,
            SqlValue::Text(text) => Bound::Text(text.clone()),
            SqlValue::Integer(n) => Bound::Integer(*n),
            SqlValue::Real(pattern) => Bound::Real(f32::from_bits(*pattern) as f64),
            SqlValue::Blob(bytes) => Bound::Blob(bytes.clone()),
        })
        .collect()
}

fn run(connection: &Connection, statement: &Statement) -> usize {
    connection
        .execute(&statement.sql, params_from_iter(bound(statement)))
        .unwrap()
}

fn database() -> Connection {
    let connection = Connection::open_in_memory().unwrap();
    connection
        .execute_batch(
            "CREATE TABLE collections (
                 id TEXT PRIMARY KEY, user_id TEXT NOT NULL, name TEXT NOT NULL,
                 embedding_model TEXT NOT NULL, dimensions INTEGER NOT NULL,
                 created_at TEXT NOT NULL, UNIQUE (user_id, name));
             CREATE TABLE memories (
                 id TEXT PRIMARY KEY, user_id TEXT NOT NULL, collection_id TEXT NOT NULL,
                 content TEXT NOT NULL, category TEXT NOT NULL, subcategory TEXT,
                 tags TEXT NOT NULL, entities TEXT NOT NULL, confidence REAL NOT NULL,
                 importance REAL NOT NULL, access_count INTEGER NOT NULL,
                 source_client TEXT, source_session_id TEXT, created_at TEXT NOT NULL,
                 updated_at TEXT NOT NULL, last_accessed_at TEXT, expires_at TEXT,
                 superseded_by TEXT, deleted_at TEXT);
             CREATE TABLE memory_audit (
                 id TEXT PRIMARY KEY, memory_id TEXT NOT NULL, user_id TEXT NOT NULL,
                 operation TEXT NOT NULL, actor TEXT NOT NULL, detail TEXT NOT NULL,
                 at TEXT NOT NULL);
             CREATE TABLE vec_memories (
                 memory_id TEXT PRIMARY KEY, user_id TEXT NOT NULL, embedding BLOB NOT NULL);
             CREATE TABLE graph_backfill_state (
                 user_id TEXT PRIMARY KEY, relations_cursor TEXT NOT NULL);
             CREATE TABLE memory_entities (
                 user_id TEXT NOT NULL, memory_id TEXT NOT NULL, entity_key TEXT NOT NULL,
                 name TEXT NOT NULL, kind TEXT NOT NULL,
                 PRIMARY KEY (user_id, memory_id, entity_key));
             CREATE TABLE memory_relations (
                 id TEXT PRIMARY KEY, user_id TEXT NOT NULL, memory_id TEXT NOT NULL, subject_key TEXT NOT NULL,
                 predicate TEXT NOT NULL, object_key TEXT NOT NULL, subject_name TEXT NOT NULL,
                 object_name TEXT NOT NULL, valid_from TEXT NOT NULL, invalid_at TEXT,
                 invalidated_by TEXT);",
        )
        .unwrap();
    connection
}

fn fresh() -> String {
    MemoryId::new().to_text()
}

/// The repository's statements, executed.
struct Repository<'a> {
    rules: SqliteMemoryRepository,
    connection: &'a Connection,
}

impl<'a> Repository<'a> {
    fn new(connection: &'a Connection, model: &str, dimensions: usize) -> Self {
        Self {
            rules: SqliteMemoryRepository::new(model, dimensions),
            connection,
        }
    }

    fn insert(&self, user: UserId, memory: &Memory, actor: &str) -> Result<()> {
        let lookup = self.rules.find_collection(user);
        let existing = self
            .connection
            .query_row(&lookup.sql, params_from_iter(bound(&lookup)), |row| {
                Ok((
                    row.get::<_, String>(0)?,
                    Pin {
                        model: row.get(1)?,
                        dimensions: row.get(2)?,
                    },
                ))
            })
            .ok();
        for statement in
            self.rules
                .insert(user, memory, actor, existing, &fresh(), &fresh(), now())?
        {
            run(self.connection, &statement);
        }
        Ok(())
    }

    fn update(&self, user: UserId, memory: &Memory, actor: &str) -> Result<()> {
        let affected = run(self.connection, &self.rules.update(user, memory));
        let audit = self
            .rules
            .updated(user, memory, actor, affected, &fresh(), now())?;
        run(self.connection, &audit);
        Ok(())
    }

    fn delete(&self, user: UserId, id: MemoryId, actor: &str, detail: &str) -> Result<()> {
        let affected = run(self.connection, &self.rules.delete(user, id, now()));
        let audit = self
            .rules
            .deleted(user, id, actor, detail, affected, &fresh(), now())?;
        run(self.connection, &audit);
        Ok(())
    }

    fn supersede(&self, user: UserId, id: MemoryId, by: MemoryId, actor: &str) -> Result<()> {
        let affected = run(self.connection, &self.rules.supersede(user, id, by, now()));
        let audit = self
            .rules
            .superseded(user, id, actor, "", affected, &fresh(), now())?;
        run(self.connection, &audit);
        Ok(())
    }

    fn merge(
        &self,
        user: UserId,
        ids: &[MemoryId],
        replacement: MemoryId,
        actor: &str,
        detail: &str,
    ) -> usize {
        let mut retired = 0;
        for id in ids {
            let affected = run(
                self.connection,
                &self.rules.merge(user, *id, replacement, now()),
            );
            if let Some(audit) =
                self.rules
                    .merged(user, *id, actor, detail, affected, &fresh(), now())
            {
                run(self.connection, &audit);
                retired += 1;
            }
        }
        retired
    }

    fn set_importance(&self, user: UserId, scores: &[(MemoryId, f32)]) {
        for (id, score) in scores {
            run(
                self.connection,
                &self.rules.set_importance(user, *id, score.to_bits()),
            );
        }
    }

    fn read(&self, statement: &Statement) -> Vec<Memory> {
        let mut prepared = self.connection.prepare(&statement.sql).unwrap();
        let rows: Vec<MemoryRow> = prepared
            .query_map(params_from_iter(bound(statement)), |row| {
                Ok(MemoryRow {
                    id: row.get(0)?,
                    user_id: row.get(1)?,
                    content: row.get(2)?,
                    category: row.get(3)?,
                    subcategory: row.get(4)?,
                    tags: row.get(5)?,
                    entities: row.get(6)?,
                    confidence: (row.get::<_, f64>(7)? as f32).to_bits(),
                    importance: (row.get::<_, f64>(8)? as f32).to_bits(),
                    access_count: row.get::<_, i64>(9)? as u64,
                    source_client: row.get(10)?,
                    source_session_id: row.get(11)?,
                    created_at: row.get(12)?,
                    updated_at: row.get(13)?,
                    last_accessed_at: row.get(14)?,
                    expires_at: row.get(15)?,
                    superseded_by: row.get(16)?,
                })
            })
            .unwrap()
            .map(|row| row.unwrap())
            .collect();
        rows.into_iter().map(|row| build_memory(row).unwrap()).collect()
    }

    fn find(&self, user: UserId, id: MemoryId) -> Option<Memory> {
        self.read(&self.rules.find(user, id)).pop()
    }

    fn find_many(&self, user: UserId, ids: &[MemoryId]) -> Vec<Memory> {
        match self.rules.find_many(user, &ids.to_vec()) {
            Some(statement) => self.read(&statement),
            None => Vec::new(),
        }
    }

    fn list(&self, user: UserId, include_inactive: bool) -> Vec<Memory> {
        self.read(&self.rules.list(user, include_inactive))
    }

    fn touch(&self, user: UserId, ids: &[MemoryId], when: Timestamp) {
        if let Some(statement) = self.rules.touch_accessed(user, &ids.to_vec(), when) {
            run(self.connection, &statement);
        }
    }

    fn audit_trail(&self, user: UserId, limit: usize) -> Vec<AuditEntry> {
        let statement = self.rules.audit_trail(user, limit);
        let mut prepared = self.connection.prepare(&statement.sql).unwrap();
        let entries = prepared
            .query_map(params_from_iter(bound(&statement)), |row| {
                Ok(build_audit_entry(
                    row.get(0)?,
                    row.get(1)?,
                    row.get(2)?,
                    row.get(3)?,
                    row.get(4)?,
                ))
            })
            .unwrap()
            .map(|entry| entry.unwrap().unwrap())
            .collect();
        entries
    }

    fn verify_pin(&self) -> Result<()> {
        let mut prepared = self
            .connection
            .prepare(&self.rules.read_pins().sql)
            .unwrap();
        let pins: Vec<Pin> = prepared
            .query_map([], |row| {
                Ok(Pin {
                    model: row.get(0)?,
                    dimensions: row.get(1)?,
                })
            })
            .unwrap()
            .map(|pin| pin.unwrap())
            .collect();
        self.rules.verify_pin(&pins)
    }
}

fn repository(connection: &Connection) -> Repository<'_> {
    Repository::new(connection, "test-model", DIMENSIONS)
}

fn users() -> (UserId, UserId) {
    (UserId::new(), UserId::new())
}

fn memory_for(user: UserId, content: &str) -> Memory {
    Memory::create(
        user,
        NewMemory {
            content: content.to_string(),
            category: Category::PreferenceCoding,
            subcategory: None,
            tags: vec!["typescript".to_string()],
            entities: vec![],
            confidence: 0.9f32.to_bits(),
            source: MemorySource {
                client: Some("test".to_string()),
                session_id: None,
            },
            expires_at: None,
        },
        now(),
    )
    .unwrap()
}

fn content_edit(content: &str) -> MemoryEdit {
    MemoryEdit {
        content: Some(content.to_string()),
        ..Default::default()
    }
}

#[test]
fn round_trips_a_memory_with_every_field() {
    let connection = database();
    let memories = repository(&connection);
    let (alex, _) = users();
    let memory = memory_for(alex, "User forbids barrel files");
    memories.insert(alex, &memory, "test").unwrap();

    let found = memories.find(alex, memory.id()).unwrap();

    assert_eq!(found.id(), memory.id());
    assert_eq!(found.content(), "User forbids barrel files");
    assert_eq!(found.category(), &Category::PreferenceCoding);
    assert_eq!(found.tags(), &["typescript".to_string()]);
    assert_eq!(f32::from_bits(found.confidence()), 0.9);
    assert_eq!(found.source().client.as_deref(), Some("test"));
    assert_eq!(found.created_at(), now());
    assert!(!found.is_superseded());
    assert_eq!(found, memory);
}

#[test]
fn a_missing_memory_is_none_not_an_error() {
    let connection = database();
    let (alex, _) = users();
    assert!(repository(&connection).find(alex, MemoryId::new()).is_none());
}

#[test]
fn one_user_cannot_read_anothers_memory_by_id() {
    let connection = database();
    let memories = repository(&connection);
    let (alex, sam) = users();
    let memory = memory_for(alex, "alex's secret");
    memories.insert(alex, &memory, "test").unwrap();

    assert!(
        memories.find(sam, memory.id()).is_none(),
        "another user's memory was readable by id"
    );
}

#[test]
fn one_user_cannot_update_or_delete_anothers_memory() {
    let connection = database();
    let memories = repository(&connection);
    let (alex, sam) = users();
    let memory = memory_for(alex, "alex's memory");
    memories.insert(alex, &memory, "test").unwrap();

    let hijacked = memory
        .clone()
        .edit(content_edit("overwritten by sam"), now())
        .unwrap();

    assert!(matches!(
        memories.update(sam, &hijacked, "sam"),
        Err(RaError::NotFound(_))
    ));
    assert!(matches!(
        memories.delete(sam, memory.id(), "sam", ""),
        Err(RaError::NotFound(_))
    ));

    let untouched = memories.find(alex, memory.id()).unwrap();
    assert_eq!(untouched.content(), "alex's memory");
}

#[test]
fn listing_returns_only_the_callers_memories() {
    let connection = database();
    let memories = repository(&connection);
    let (alex, sam) = users();
    memories
        .insert(alex, &memory_for(alex, "alex one"), "test")
        .unwrap();
    memories
        .insert(alex, &memory_for(alex, "alex two"), "test")
        .unwrap();
    memories
        .insert(sam, &memory_for(sam, "sam one"), "test")
        .unwrap();

    let alex_memories = memories.list(alex, false);
    assert_eq!(alex_memories.len(), 2);
    assert!(alex_memories.iter().all(|memory| memory.user_id() == alex));
    assert_eq!(memories.list(sam, false).len(), 1);
}

#[test]
fn find_many_silently_drops_ids_belonging_to_another_user() {
    let connection = database();
    let memories = repository(&connection);
    let (alex, sam) = users();
    let alex_memory = memory_for(alex, "alex's");
    let sam_memory = memory_for(sam, "sam's");
    memories.insert(alex, &alex_memory, "t").unwrap();
    memories.insert(sam, &sam_memory, "t").unwrap();

    let found = memories.find_many(alex, &[alex_memory.id(), sam_memory.id()]);

    assert_eq!(found.len(), 1);
    assert_eq!(found[0].id(), alex_memory.id());
    assert!(memories.find_many(alex, &[]).is_empty());
}

#[test]
fn a_deleted_memory_disappears_from_reads_but_stays_in_the_audit_trail() {
    let connection = database();
    let memories = repository(&connection);
    let (alex, _) = users();
    let memory = memory_for(alex, "temporary");
    memories.insert(alex, &memory, "test").unwrap();

    memories.delete(alex, memory.id(), "test", "").unwrap();

    assert!(memories.find(alex, memory.id()).is_none());
    assert!(memories.list(alex, true).is_empty());

    let audit = memories.audit_trail(alex, 10);
    assert!(
        audit.iter().any(
            |entry| entry.memory_id == memory.id() && entry.operation == AuditOperation::Delete
        ),
        "the delete is missing from the audit trail: {audit:?}"
    );
}

#[test]
fn deleting_a_missing_memory_is_not_found() {
    let connection = database();
    let (alex, _) = users();
    assert!(matches!(
        repository(&connection).delete(alex, MemoryId::new(), "t", ""),
        Err(RaError::NotFound(_))
    ));
}

#[test]
fn superseded_memories_are_hidden_unless_asked_for() {
    let connection = database();
    let memories = repository(&connection);
    let (alex, _) = users();
    let old = memory_for(alex, "deploys on fly.io");
    let new = memory_for(alex, "deploys on hetzner");
    memories.insert(alex, &old, "test").unwrap();
    memories.insert(alex, &new, "test").unwrap();

    let superseded = old.clone().supersede(new.id(), now());
    memories.update(alex, &superseded, "test").unwrap();

    let active = memories.list(alex, false);
    assert_eq!(active.len(), 1);
    assert_eq!(active[0].id(), new.id());

    let all = memories.list(alex, true);
    assert_eq!(all.len(), 2, "supersede must retain the memory");
    let reloaded = all.iter().find(|m| m.id() == old.id()).unwrap();
    assert_eq!(reloaded.superseded_by(), Some(new.id()));
    assert_eq!(reloaded.content(), "deploys on fly.io");
}

#[test]
fn every_mutation_is_audited() {
    let connection = database();
    let memories = repository(&connection);
    let (alex, _) = users();
    let memory = memory_for(alex, "original");
    memories.insert(alex, &memory, "cli").unwrap();

    let edited = memory.clone().edit(content_edit("revised"), now()).unwrap();
    memories.update(alex, &edited, "rest").unwrap();
    memories.delete(alex, memory.id(), "mcp", "").unwrap();

    let audit = memories.audit_trail(alex, 10);
    let operations: Vec<AuditOperation> = audit.iter().map(|entry| entry.operation).collect();

    assert!(operations.contains(&AuditOperation::Add));
    assert!(operations.contains(&AuditOperation::Update));
    assert!(operations.contains(&AuditOperation::Delete));
    assert!(
        audit.iter().any(|entry| entry.actor == "mcp"),
        "the actor should be recorded"
    );
}

#[test]
fn the_audit_trail_is_per_user() {
    let connection = database();
    let memories = repository(&connection);
    let (alex, sam) = users();
    memories
        .insert(alex, &memory_for(alex, "alex"), "test")
        .unwrap();

    assert!(memories.audit_trail(sam, 10).is_empty());
    assert_eq!(memories.audit_trail(alex, 10).len(), 1);
}

#[test]
fn touching_records_access_only_for_the_callers_memories() {
    let connection = database();
    let memories = repository(&connection);
    let (alex, sam) = users();
    let alex_memory = memory_for(alex, "alex's");
    let sam_memory = memory_for(sam, "sam's");
    memories.insert(alex, &alex_memory, "t").unwrap();
    memories.insert(sam, &sam_memory, "t").unwrap();

    let later = at(NOW + 2 * HOUR);
    memories.touch(alex, &[alex_memory.id(), sam_memory.id()], later);

    assert_eq!(
        memories.find(alex, alex_memory.id()).unwrap().last_accessed_at(),
        Some(later)
    );
    assert_eq!(
        memories.find(sam, sam_memory.id()).unwrap().last_accessed_at(),
        None,
        "touching leaked across users"
    );
}

#[test]
fn a_changed_embedding_model_is_refused_rather_than_silently_mixed() {
    let connection = database();
    let (alex, _) = users();

    let original = Repository::new(&connection, "model-a", DIMENSIONS);
    original
        .insert(alex, &memory_for(alex, "written with model a"), "t")
        .unwrap();

    let reconfigured = Repository::new(&connection, "model-b", DIMENSIONS);
    let error = reconfigured
        .insert(alex, &memory_for(alex, "written with model b"), "t")
        .unwrap_err();

    assert!(matches!(error, RaError::Validation(_)), "got {error:?}");
    let message = error.message();
    assert!(
        message.contains("model-a") && message.contains("model-b"),
        "{message}"
    );
    assert!(
        message.contains("recuerdos-ai reindex"),
        "should name the command that fixes it: {message}"
    );
}

#[test]
fn verify_pin_catches_a_dimension_change_at_startup_not_on_the_first_recall() {
    let connection = database();
    let (alex, _) = users();

    let original = Repository::new(&connection, "small", 384);
    original
        .insert(alex, &memory_for(alex, "written by the small model"), "t")
        .unwrap();

    let reconfigured = Repository::new(&connection, "gemini-embedding", 3072);
    let error = reconfigured.verify_pin().unwrap_err();

    assert!(matches!(error, RaError::Validation(_)), "got {error:?}");
    let message = error.message();
    assert!(
        message.contains("384") && message.contains("3072"),
        "{message}"
    );
    assert!(
        message.contains("recuerdos-ai reindex"),
        "should name the fix: {message}"
    );
}

#[test]
fn verify_pin_is_happy_with_a_fresh_store_and_a_matching_one() {
    let connection = database();
    let (alex, _) = users();

    let memories = repository(&connection);
    memories
        .verify_pin()
        .expect("an empty store has no pin to conflict with");

    memories
        .insert(alex, &memory_for(alex, "hello"), "t")
        .unwrap();
    memories
        .verify_pin()
        .expect("the pin matches the configured model");
}

#[test]
fn a_row_that_is_no_memory_says_what_is_wrong() {
    let row = |id: &str, created_at: &str| MemoryRow {
        id: id.to_string(),
        user_id: UserId::new().to_text(),
        content: "x".to_string(),
        category: "decision".to_string(),
        subcategory: None,
        tags: "[]".to_string(),
        entities: "[]".to_string(),
        confidence: 0,
        importance: 0,
        access_count: 0,
        source_client: None,
        source_session_id: None,
        created_at: created_at.to_string(),
        updated_at: created_at.to_string(),
        last_accessed_at: None,
        expires_at: None,
        superseded_by: None,
    };

    let bad_id = build_memory(row("nope", "2023-11-14T22:13:20+00:00")).unwrap_err();
    assert!(bad_id.message().starts_with("stored memory id \"nope\": "), "{bad_id:?}");
    let bad_time = build_memory(row(&fresh(), "yesterday")).unwrap_err();
    assert!(
        bad_time
            .message()
            .starts_with("stored timestamp \"yesterday\" is not rfc3339: "),
        "{bad_time:?}"
    );
    assert!(build_memory(row(&fresh(), "2023-11-14T22:13:20+00:00")).is_ok());

    let unknown = build_audit_entry(
        fresh(),
        "rename".to_string(),
        "t".to_string(),
        String::new(),
        "2023-11-14T22:13:20+00:00".to_string(),
    );
    assert_eq!(
        unknown.unwrap_err().message(),
        "stored audit operation \"rename\" is unknown"
    );
}

#[test]
fn columns_of_lists_read_back() {
    assert_eq!(decode_tags("[\"a\",\"b\"]"), vec!["a".to_string(), "b".to_string()]);
    assert!(decode_tags("not a list").is_empty());
    let entities = decode_entities("[{\"name\":\"Hetzner\",\"kind\":\"service\"},{\"name\":\"x\"},7]");
    assert_eq!(entities.len(), 1);
    assert_eq!(entities[0].name, "Hetzner");
    assert!(decode_entities("{").is_empty());
}

// ---- vectors ----

/// The vector index's statements, executed; the nearest are found here.
struct Vectors<'a> {
    rules: SqliteVectorIndex,
    connection: &'a Connection,
}

impl<'a> Vectors<'a> {
    fn new(connection: &'a Connection) -> Self {
        Self {
            rules: SqliteVectorIndex {
                dimensions: DIMENSIONS,
            },
            connection,
        }
    }

    fn upsert(&self, user: UserId, id: MemoryId, vector: &[f32]) -> Result<()> {
        let (out, put) = self.rules.upsert(user, id, &bits(vector))?;
        run(self.connection, &out);
        run(self.connection, &put);
        Ok(())
    }

    fn remove(&self, user: UserId, id: MemoryId) {
        run(self.connection, &self.rules.remove(user, id));
    }

    fn search(&self, user: UserId, vector: &[f32], limit: usize) -> Result<Vec<MemoryId>> {
        let statement = match self.rules.search(user, &bits(vector), limit)? {
            Some(statement) => statement,
            None => return Ok(Vec::new()),
        };
        // The nearest are found here: the operator is the virtual table's.
        assert_eq!(
            statement.sql,
            "SELECT memory_id FROM vec_memories WHERE embedding MATCH ?1 AND user_id = ?2 AND k = ?3 ORDER BY distance"
        );
        assert!(matches!(statement.params[2], SqlValue::Integer(k) if k == limit as i64));
        let SqlValue::Blob(wanted) = &statement.params[0] else {
            panic!("the vector comes first");
        };
        let SqlValue::Text(owner) = &statement.params[1] else {
            panic!("the user comes second");
        };
        let mut prepared = self
            .connection
            .prepare("SELECT memory_id, embedding FROM vec_memories WHERE user_id = ?1")
            .unwrap();
        let mut found: Vec<(String, f32)> = prepared
            .query_map([owner], |row| {
                Ok((
                    row.get::<_, String>(0)?,
                    distance(wanted, &row.get::<_, Vec<u8>>(1)?),
                ))
            })
            .unwrap()
            .map(|row| row.unwrap())
            .collect();
        found.sort_by(|a, b| a.1.total_cmp(&b.1));
        found.truncate(limit);
        let raws: Vec<String> = found.into_iter().map(|(id, _)| id).collect();
        self.rules.found(&raws)
    }
}

fn numbers(bytes: &[u8]) -> Vec<f32> {
    bytes
        .chunks(4)
        .map(|b| f32::from_le_bytes([b[0], b[1], b[2], b[3]]))
        .collect()
}

fn distance(a: &[u8], b: &[u8]) -> f32 {
    numbers(a)
        .iter()
        .zip(numbers(b))
        .map(|(x, y)| (x - y) * (x - y))
        .sum()
}

#[test]
fn vector_search_returns_the_nearest_first() {
    let connection = database();
    let vectors = Vectors::new(&connection);
    let (alex, _) = users();
    let near = memory_for(alex, "near");
    let far = memory_for(alex, "far");

    vectors.upsert(alex, near.id(), &[1.0, 0.0, 0.0, 0.0]).unwrap();
    vectors.upsert(alex, far.id(), &[0.0, 1.0, 0.0, 0.0]).unwrap();

    let hits = vectors.search(alex, &[0.9, 0.1, 0.0, 0.0], 10).unwrap();

    assert_eq!(hits.first(), Some(&near.id()));
    assert_eq!(hits.len(), 2);
}

#[test]
fn vector_search_never_crosses_users_even_for_identical_vectors() {
    let connection = database();
    let vectors = Vectors::new(&connection);
    let (alex, sam) = users();
    let alex_memory = memory_for(alex, "alex");
    let sam_memory = memory_for(sam, "sam");

    let vector = [1.0, 0.0, 0.0, 0.0];
    vectors.upsert(alex, alex_memory.id(), &vector).unwrap();
    vectors.upsert(sam, sam_memory.id(), &vector).unwrap();

    assert_eq!(
        vectors.search(alex, &vector, 10).unwrap(),
        vec![alex_memory.id()]
    );
    assert_eq!(
        vectors.search(sam, &vector, 10).unwrap(),
        vec![sam_memory.id()]
    );
}

#[test]
fn upserting_the_same_memory_replaces_its_vector() {
    let connection = database();
    let vectors = Vectors::new(&connection);
    let (alex, _) = users();
    let memory = memory_for(alex, "moving target");

    vectors.upsert(alex, memory.id(), &[1.0, 0.0, 0.0, 0.0]).unwrap();
    vectors.upsert(alex, memory.id(), &[0.0, 1.0, 0.0, 0.0]).unwrap();

    let hits = vectors.search(alex, &[0.0, 1.0, 0.0, 0.0], 10).unwrap();

    assert_eq!(hits, vec![memory.id()], "the old vector was left behind");
}

#[test]
fn removing_a_vector_takes_it_out_of_search() {
    let connection = database();
    let vectors = Vectors::new(&connection);
    let (alex, _) = users();
    let memory = memory_for(alex, "transient");
    vectors.upsert(alex, memory.id(), &[1.0, 0.0, 0.0, 0.0]).unwrap();

    vectors.remove(alex, memory.id());

    assert!(vectors
        .search(alex, &[1.0, 0.0, 0.0, 0.0], 10)
        .unwrap()
        .is_empty());
}

#[test]
fn one_user_cannot_remove_anothers_vector() {
    let connection = database();
    let vectors = Vectors::new(&connection);
    let (alex, sam) = users();
    let memory = memory_for(alex, "alex's");
    let vector = [1.0, 0.0, 0.0, 0.0];
    vectors.upsert(alex, memory.id(), &vector).unwrap();

    vectors.remove(sam, memory.id());

    assert_eq!(
        vectors.search(alex, &vector, 10).unwrap(),
        vec![memory.id()],
        "another user's remove deleted this vector"
    );
}

#[test]
fn a_wrong_sized_embedding_is_rejected_rather_than_stored() {
    let connection = database();
    let vectors = Vectors::new(&connection);
    let (alex, _) = users();
    let memory = memory_for(alex, "x");

    let error = vectors.upsert(alex, memory.id(), &[1.0, 0.0]).unwrap_err();

    assert!(error.message().contains("dimensions"), "{error:?}");
    assert_eq!(
        error.message(),
        "embedding has 2 dimensions but the index expects 4"
    );
}

#[test]
fn searching_an_empty_index_returns_nothing() {
    let connection = database();
    let (alex, _) = users();
    assert!(Vectors::new(&connection)
        .search(alex, &[1.0, 0.0, 0.0, 0.0], 10)
        .unwrap()
        .is_empty());
}

#[test]
fn a_zero_limit_returns_nothing_rather_than_erroring() {
    let connection = database();
    let vectors = Vectors::new(&connection);
    let (alex, _) = users();
    let memory = memory_for(alex, "x");
    vectors.upsert(alex, memory.id(), &[1.0, 0.0, 0.0, 0.0]).unwrap();

    assert!(vectors
        .search(alex, &[1.0, 0.0, 0.0, 0.0], 0)
        .unwrap()
        .is_empty());
}

#[test]
fn a_vector_is_stored_little_endian() {
    assert_eq!(to_bytes(&vec![1.0f32.to_bits()]), vec![0, 0, 0x80, 0x3f]);
    assert_eq!(numbers(&to_bytes(&bits(&[0.25, -3.5]))), vec![0.25, -3.5]);
    let (_, created) = SqliteVectorIndex::open(384);
    assert!(created.sql.contains("embedding float[384]"), "{}", created.sql);
    let broken = SqliteVectorIndex { dimensions: 4 }.found(&vec!["nope".to_string()]);
    assert!(broken
        .unwrap_err()
        .message()
        .starts_with("indexed memory id \"nope\" is not a uuid: "));
}

// ---- the text index ----

/// One text index in memory for each user, under the name of the user's own
/// directory.
struct TextIndexes {
    rules: TantivyTextIndex,
    schema: Schema,
    memory_id: Field,
    content: Field,
    tags: Field,
    category: Field,
    indexes: HashMap<String, (Index, IndexWriter)>,
}

impl TextIndexes {
    fn new() -> Self {
        let mut builder = Schema::builder();
        let memory_id = builder.add_text_field("memory_id", STRING | STORED);
        let content = builder.add_text_field("content", TEXT);
        let tags = builder.add_text_field("tags", TEXT);
        let category = builder.add_text_field("category", TEXT);
        Self {
            rules: TantivyTextIndex,
            schema: builder.build(),
            memory_id,
            content,
            tags,
            category,
            indexes: HashMap::new(),
        }
    }

    fn open(&mut self, user: UserId) -> &mut (Index, IndexWriter) {
        let schema = self.schema.clone();
        self.indexes
            .entry(self.rules.directory(user))
            .or_insert_with(|| {
                let index = Index::create_in_ram(schema);
                let writer = index.writer_with_num_threads(1, 15_000_000).unwrap();
                (index, writer)
            })
    }

    fn upsert(&mut self, user: UserId, memory: &Memory) {
        let steps = self.rules.upsert(memory);
        self.perform(user, steps);
    }

    fn remove(&mut self, user: UserId, id: MemoryId) {
        let steps = self.rules.remove(id);
        self.perform(user, steps);
    }

    fn perform(&mut self, user: UserId, steps: Vec<IndexStep>) {
        let (memory_id, content, tags, category) =
            (self.memory_id, self.content, self.tags, self.category);
        let (_, writer) = self.open(user);
        for step in steps {
            match step {
                IndexStep::Delete(id) => {
                    writer.delete_term(Term::from_field_text(memory_id, &id));
                }
                IndexStep::Add(document) => {
                    let mut indexed = TantivyDocument::default();
                    indexed.add_text(memory_id, &document.memory_id);
                    indexed.add_text(content, &document.content);
                    indexed.add_text(tags, &document.tags);
                    indexed.add_text(category, &document.category);
                    writer.add_document(indexed).unwrap();
                }
                IndexStep::Commit => {
                    writer.commit().unwrap();
                }
            }
        }
    }

    fn search(&mut self, user: UserId, query: &str, limit: usize) -> Vec<MemoryId> {
        let words = match self.rules.search(query, limit) {
            Some(words) => words,
            None => return Vec::new(),
        };
        let (memory_id, fields) = (self.memory_id, vec![self.content, self.tags, self.category]);
        let (index, _) = self.open(user);
        let searcher = index.reader().unwrap().searcher();
        let parsed = match QueryParser::for_index(index, fields).parse_query(&words) {
            Ok(parsed) => parsed,
            Err(_) => return self.rules.found(SearchReply::Unparsed),
        };
        let hits = searcher
            .search(&parsed, &TopDocs::with_limit(limit).order_by_score())
            .unwrap();
        let raws: Vec<String> = hits
            .into_iter()
            .filter_map(|(_, address)| {
                let document: TantivyDocument = searcher.doc(address).unwrap();
                document
                    .get_first(memory_id)
                    .and_then(|value| value.as_str())
                    .map(|raw| raw.to_string())
            })
            .collect();
        self.rules.found(SearchReply::Hits(raws))
    }
}

#[test]
fn text_search_finds_a_memory_by_its_words() {
    let mut text = TextIndexes::new();
    let (alex, _) = users();
    let memory = memory_for(alex, "User forbids barrel files and index re-exports");
    text.upsert(alex, &memory);

    assert_eq!(text.search(alex, "barrel files", 10), vec![memory.id()]);
}

#[test]
fn text_search_finds_an_exact_identifier_a_vector_would_blur() {
    let mut text = TextIndexes::new();
    let (alex, _) = users();
    let target = memory_for(alex, "The useQuery cache key must include the tenant id");
    let neighbour = memory_for(alex, "Prefer useState over useReducer for simple state");
    text.upsert(alex, &target);
    text.upsert(alex, &neighbour);

    let hits = text.search(alex, "useQuery", 10);

    assert_eq!(
        hits.first(),
        Some(&target.id()),
        "the exact identifier should win"
    );
}

#[test]
fn text_search_matches_tags_and_category_too() {
    let mut text = TextIndexes::new();
    let (alex, _) = users();
    let memory = memory_for(alex, "content without the word");
    text.upsert(alex, &memory);

    assert_eq!(
        text.search(alex, "typescript", 10),
        vec![memory.id()],
        "tags should be searchable"
    );
    assert_eq!(
        text.search(alex, "preference.coding", 10),
        vec![memory.id()],
        "category should be searchable"
    );
}

#[test]
fn text_search_never_crosses_users() {
    let mut text = TextIndexes::new();
    let (alex, sam) = users();
    let alex_memory = memory_for(alex, "shared vocabulary about pnpm");
    let sam_memory = memory_for(sam, "shared vocabulary about pnpm");
    text.upsert(alex, &alex_memory);
    text.upsert(sam, &sam_memory);

    assert_eq!(text.search(alex, "pnpm", 10), vec![alex_memory.id()]);
    assert_eq!(text.search(sam, "pnpm", 10), vec![sam_memory.id()]);
}

#[test]
fn reindexing_a_memory_does_not_duplicate_it() {
    let mut text = TextIndexes::new();
    let (alex, _) = users();
    let memory = memory_for(alex, "original wording about pnpm");
    text.upsert(alex, &memory);
    text.upsert(alex, &memory);

    let hits = text.search(alex, "pnpm", 10);

    assert_eq!(
        hits.len(),
        1,
        "tantivy has no update; upsert must delete first"
    );
}

#[test]
fn editing_a_memory_makes_the_new_words_findable_and_the_old_ones_not() {
    let mut text = TextIndexes::new();
    let (alex, _) = users();
    let memory = memory_for(alex, "deploys on flyio");
    text.upsert(alex, &memory);

    let edited = memory
        .clone()
        .edit(content_edit("deploys on hetzner"), now())
        .unwrap();
    text.upsert(alex, &edited);

    assert_eq!(text.search(alex, "hetzner", 10), vec![memory.id()]);
    assert!(
        text.search(alex, "flyio", 10).is_empty(),
        "the superseded wording is still indexed"
    );
}

#[test]
fn removing_a_memory_takes_it_out_of_text_search() {
    let mut text = TextIndexes::new();
    let (alex, _) = users();
    let memory = memory_for(alex, "transient note about pnpm");
    text.upsert(alex, &memory);

    text.remove(alex, memory.id());

    assert!(text.search(alex, "pnpm", 10).is_empty());
}

#[test]
fn one_user_cannot_remove_anothers_indexed_memory() {
    let mut text = TextIndexes::new();
    let (alex, sam) = users();
    let memory = memory_for(alex, "alex's note about pnpm");
    text.upsert(alex, &memory);

    text.remove(sam, memory.id());

    assert_eq!(
        text.search(alex, "pnpm", 10),
        vec![memory.id()],
        "another user's remove deleted this document"
    );
}

#[test]
fn a_natural_language_question_matches_on_any_of_its_words() {
    let mut text = TextIndexes::new();
    let (alex, _) = users();
    let memory = memory_for(alex, "User prefers pnpm as their package manager");
    text.upsert(alex, &memory);

    let hits = text.search(alex, "which package manager should I use?", 10);

    assert_eq!(hits, vec![memory.id()]);
}

#[test]
fn punctuation_heavy_input_does_not_error() {
    let mut text = TextIndexes::new();
    let (alex, _) = users();
    let memory = memory_for(alex, "note about pnpm");
    text.upsert(alex, &memory);

    for query in ["+++", "pnpm:", "\"unclosed", "a/b\\c", "((("] {
        let found = text.search(alex, query, 10);
        assert!(found.len() <= 1, "{query:?} produced {found:?}");
    }
}

#[test]
fn searching_an_empty_query_or_zero_limit_returns_nothing() {
    let mut text = TextIndexes::new();
    let (alex, _) = users();
    let memory = memory_for(alex, "note about pnpm");
    text.upsert(alex, &memory);

    assert!(text.search(alex, "   ", 10).is_empty());
    assert!(text.search(alex, "pnpm", 0).is_empty());
}

#[test]
fn searching_a_user_with_no_index_yet_is_empty_not_an_error() {
    let mut text = TextIndexes::new();
    let (_, sam) = users();
    assert!(text.search(sam, "anything", 10).is_empty());
}

#[test]
fn each_user_gets_their_own_index_directory() {
    let mut text = TextIndexes::new();
    let (alex, sam) = users();
    text.upsert(alex, &memory_for(alex, "alex"));
    text.upsert(sam, &memory_for(sam, "sam"));

    assert!(
        text.indexes.contains_key(&alex.to_text()),
        "expected a per-user index directory"
    );
    assert!(text.indexes.contains_key(&sam.to_text()));
    assert_eq!(text.indexes.len(), 2);
}

#[test]
fn escaping_removes_query_syntax_but_keeps_words() {
    assert_eq!(
        escape_query("what's my +package -manager?"),
        "what's my package manager"
    );
    assert_eq!(escape_query("category:decision"), "category decision");
    assert_eq!(escape_query("   "), "");
}

#[test]
fn escaping_leaves_ordinary_text_alone() {
    assert_eq!(escape_query("user prefers pnpm"), "user prefers pnpm");
}

#[test]
fn identifiers_that_do_not_read_are_passed_over() {
    let id = MemoryId::new();
    let raws = vec!["nope".to_string(), id.to_text()];
    assert_eq!(TantivyTextIndex.found(SearchReply::Hits(raws)), vec![id]);
}

// ---- merging, access and importance ----

#[test]
fn merging_retires_a_whole_cluster_and_the_trail_reads_back() {
    let connection = database();
    let memories = repository(&connection);
    let (alex, _) = users();
    let cluster: Vec<Memory> = (0..3)
        .map(|index| {
            let memory = memory_for(alex, &format!("phrasing {index}"));
            memories.insert(alex, &memory, "test").unwrap();
            memory
        })
        .collect();
    let replacement = memory_for(alex, "the merged memory");
    memories.insert(alex, &replacement, "consolidation").unwrap();

    let ids: Vec<MemoryId> = cluster.iter().map(|m| m.id()).collect();
    let retired = memories.merge(
        alex,
        &ids,
        replacement.id(),
        "consolidation",
        "three phrasings of one preference",
    );

    assert_eq!(retired, 3);
    for id in &ids {
        let stored = memories.find(alex, *id).unwrap();
        assert_eq!(
            stored.superseded_by(),
            Some(replacement.id()),
            "a cluster member was not retired"
        );
    }

    let trail = memories.audit_trail(alex, 100);
    let merges: Vec<&AuditEntry> = trail
        .iter()
        .filter(|entry| entry.operation == AuditOperation::Merge)
        .collect();
    assert_eq!(merges.len(), 3);
    assert!(merges[0].detail.contains("three phrasings"));
}

#[test]
fn merging_skips_members_another_user_owns() {
    let connection = database();
    let memories = repository(&connection);
    let (alex, sam) = users();
    let theirs = memory_for(sam, "sam's memory");
    memories.insert(sam, &theirs, "test").unwrap();
    let replacement = memory_for(alex, "alex's merged memory");
    memories.insert(alex, &replacement, "test").unwrap();

    let retired = memories.merge(
        alex,
        &[theirs.id()],
        replacement.id(),
        "consolidation",
        "should not happen",
    );

    assert_eq!(retired, 0, "another user's memory was retired");
    assert!(!memories.find(sam, theirs.id()).unwrap().is_superseded());
}

#[test]
fn merging_skips_a_member_that_is_already_retired() {
    let connection = database();
    let memories = repository(&connection);
    let (alex, _) = users();
    let first = memory_for(alex, "already merged away");
    let earlier = memory_for(alex, "the earlier replacement");
    let replacement = memory_for(alex, "the new replacement");
    for memory in [&first, &earlier, &replacement] {
        memories.insert(alex, memory, "test").unwrap();
    }
    memories
        .supersede(alex, first.id(), earlier.id(), "test")
        .unwrap();

    let retired = memories.merge(alex, &[first.id()], replacement.id(), "consolidation", "");

    assert_eq!(retired, 0);
    assert_eq!(
        memories.find(alex, first.id()).unwrap().superseded_by(),
        Some(earlier.id()),
        "an already-retired memory was re-pointed"
    );
}

#[test]
fn recall_bookkeeping_accumulates_across_calls() {
    let connection = database();
    let memories = repository(&connection);
    let (alex, _) = users();
    let memory = memory_for(alex, "a memory");
    memories.insert(alex, &memory, "test").unwrap();

    for hour in 1..=3 {
        memories.touch(alex, &[memory.id()], at(NOW + hour * HOUR));
    }

    let stored = memories.find(alex, memory.id()).unwrap();
    assert_eq!(stored.access_count(), 3);
    assert_eq!(
        stored.last_accessed_at(),
        Some(at(NOW + 3 * HOUR)),
        "the stamp should be the most recent access, not the first"
    );
}

#[test]
fn touching_never_reaches_another_users_memory() {
    let connection = database();
    let memories = repository(&connection);
    let (alex, sam) = users();
    let theirs = memory_for(sam, "sam's memory");
    memories.insert(sam, &theirs, "test").unwrap();

    memories.touch(alex, &[theirs.id()], now());

    let stored = memories.find(sam, theirs.id()).unwrap();
    assert_eq!(stored.access_count(), 0);
    assert_eq!(stored.last_accessed_at(), None);
}

#[test]
fn a_new_memory_starts_fully_important_and_round_trips_its_score() {
    let connection = database();
    let memories = repository(&connection);
    let (alex, _) = users();
    let memory = memory_for(alex, "a memory");
    memories.insert(alex, &memory, "test").unwrap();

    let fresh = memories.find(alex, memory.id()).unwrap();
    assert_eq!(f32::from_bits(fresh.importance()), 1.0);
    assert_eq!(fresh.access_count(), 0);

    memories.set_importance(alex, &[(memory.id(), 0.42)]);

    let rescored = memories.find(alex, memory.id()).unwrap();
    assert!((f32::from_bits(rescored.importance()) - 0.42).abs() < 1e-6);
}

#[test]
fn rescoring_never_reaches_another_users_memory() {
    let connection = database();
    let memories = repository(&connection);
    let (alex, sam) = users();
    let theirs = memory_for(sam, "sam's memory");
    memories.insert(sam, &theirs, "test").unwrap();

    memories.set_importance(alex, &[(theirs.id(), 0.1)]);

    let stored = memories.find(sam, theirs.id()).unwrap();
    assert_eq!(
        f32::from_bits(stored.importance()),
        1.0,
        "another user's score was rewritten"
    );
}

#[test]
fn rescoring_leaves_the_audit_trail_alone() {
    let connection = database();
    let memories = repository(&connection);
    let (alex, _) = users();
    let memory = memory_for(alex, "a memory");
    memories.insert(alex, &memory, "test").unwrap();
    let before = memories.audit_trail(alex, 100).len();

    memories.set_importance(alex, &[(memory.id(), 0.5)]);

    assert_eq!(memories.audit_trail(alex, 100).len(), before);
}

#[test]
fn a_text_search_answers_no_more_than_the_hits_it_is_handed() {
    let (a, b) = (MemoryId::new(), MemoryId::new());
    let hits = vec![a.to_text(), "nope".to_string(), b.to_text()];
    let rules = TantivyTextIndex;
    assert_eq!(rules.found(SearchReply::Hits(hits)), vec![a, b]);
    assert!(rules.found(SearchReply::Hits(Vec::new())).is_empty());
}

// ---- the entity graph ----

fn entity(name: &str, kind: &str) -> Entity {
    Entity {
        name: name.to_string(),
        kind: kind.to_string(),
    }
}

fn rel(subject: &str, predicate: &str, object: &str) -> Relation {
    Relation {
        subject: subject.to_string(),
        predicate: predicate.to_string(),
        object: object.to_string(),
    }
}

fn seed(name: &str) -> EntityKey {
    EntityKey::new(name)
}

/// The graph's statements, executed. All users share its tables.
struct Graph {
    rules: SqliteEntityGraph,
    connection: Connection,
}

impl Graph {
    fn new() -> Self {
        Self {
            rules: SqliteEntityGraph::new(),
            connection: database(),
        }
    }

    fn make(&self, user: UserId, changes: Vec<GraphChange>) {
        self.try_make(user, changes).unwrap();
    }

    fn try_make(&self, user: UserId, changes: Vec<GraphChange>) -> Result<()> {
        let failed = |e: rusqlite::Error| RaError::Internal(e.to_string());
        let mut transaction = None;
        let mut step = self.rules.begin();
        loop {
            step = match step {
                GraphStep::Begin => {
                    let reply = self.connection.unchecked_transaction().map_err(failed);
                    let reply = reply.map(|begun| transaction = Some(begun));
                    self.rules.begun(&changes, reply)
                }
                GraphStep::Make(place) => {
                    let statement = self.rules.statement(user, &changes[place], &fresh());
                    let reply = self
                        .connection
                        .execute(&statement.sql, params_from_iter(bound(&statement)))
                        .map_err(failed);
                    self.rules.made(&changes, place, reply.map(|_| ()))
                }
                GraphStep::Commit => {
                    let reply = transaction.take().unwrap().commit().map_err(failed);
                    self.rules.committed(reply)
                }
                GraphStep::RollBack { error } => {
                    transaction = None;
                    self.rules.rolled_back(error)
                }
                GraphStep::Done(outcome) => return outcome,
            };
        }
    }

    fn record(
        &self,
        user: UserId,
        id: MemoryId,
        entities: &[Entity],
        relations: &[Relation],
        valid_from: Timestamp,
    ) {
        let changes =
            self.rules
                .record(id, &entities.to_vec(), &relations.to_vec(), valid_from);
        self.make(user, changes);
    }

    fn remove(&self, user: UserId, id: MemoryId) {
        self.make(user, self.rules.remove(id));
    }

    fn invalidate(&self, user: UserId, superseding: &[Relation], when: Timestamp, by: MemoryId) {
        let changes = self.rules.invalidate(&superseding.to_vec(), when, by);
        self.make(user, changes);
    }

    fn links(&self, user: UserId) -> Vec<Link> {
        let read = self.rules.read_edges(user);
        let mut prepared = self.connection.prepare(&read.sql).unwrap();
        let links = prepared
            .query_map(params_from_iter(bound(&read)), |row| {
                Ok(read_link(
                    row.get(0)?,
                    row.get(1)?,
                    row.get(2)?,
                    row.get(3)?,
                    row.get(4)?,
                ))
            })
            .unwrap()
            .map(|link| link.unwrap())
            .collect();
        links
    }

    fn keys(&self, user: UserId) -> Vec<EntityKey> {
        let read = self.rules.read_keys(user);
        let mut prepared = self.connection.prepare(&read.sql).unwrap();
        let keys = prepared
            .query_map(params_from_iter(bound(&read)), |row| {
                Ok(EntityKey::from_stored(row.get(0)?))
            })
            .unwrap()
            .map(|key| key.unwrap())
            .collect();
        keys
    }

    fn has_relations(&self, user: UserId, id: MemoryId) -> bool {
        self.rules.has_relations(&self.links(user), id)
    }

    fn neighbours(
        &self,
        user: UserId,
        seeds: &[EntityKey],
        hops: usize,
        as_of: Option<Timestamp>,
        limit: usize,
    ) -> Vec<MemoryId> {
        self.try_neighbours(user, seeds, hops, as_of, limit)
            .unwrap()
    }

    fn try_neighbours(
        &self,
        user: UserId,
        seeds: &[EntityKey],
        hops: usize,
        as_of: Option<Timestamp>,
        limit: usize,
    ) -> Result<Vec<MemoryId>> {
        let seeds: Vec<EntityKey> = seeds.iter().map(|s| s.copy()).collect();
        let later = at(NOW + 1_000 * DAY);
        self.rules
            .neighbours(&self.links(user), &seeds, hops, as_of, later, limit)
    }

    /// A row that the graph itself never writes.
    fn put_row(&self, user: UserId, memory: &str, ends: (&str, &str), valid_from: &str) {
        self.connection
            .execute(
                "INSERT INTO memory_relations VALUES (?1, ?2, ?3, ?4, 'p', ?5, ?4, ?5, ?6, NULL, NULL)",
                [
                    fresh().as_str(),
                    user.to_text().as_str(),
                    memory,
                    ends.0,
                    ends.1,
                    valid_from,
                ],
            )
            .unwrap();
    }

    fn entity_count(&self, user: UserId, id: MemoryId) -> usize {
        self.connection
            .query_row(
                "SELECT COUNT(*) FROM memory_entities WHERE user_id = ?1 AND memory_id = ?2",
                [user.to_text(), id.to_text()],
                |row| row.get::<_, i64>(0),
            )
            .unwrap() as usize
    }

    fn edge_count(&self, user: UserId, id: MemoryId) -> usize {
        let id = id.to_text();
        self.links(user).iter().filter(|l| l.memory_id == id).count()
    }
}

#[test]
fn a_memorys_entities_and_edges_round_trip_and_removing_it_takes_them_out() {
    let graph = Graph::new();
    let (alex, _) = users();
    let memory_id = MemoryId::new();

    graph.record(
        alex,
        memory_id,
        &[
            entity("billing service", "service"),
            entity("Meridian team", "team"),
        ],
        &[rel("billing service", "maintained_by", "Meridian team")],
        now(),
    );

    assert_eq!(graph.entity_count(alex, memory_id), 2);
    assert_eq!(graph.edge_count(alex, memory_id), 1);
    assert!(graph.has_relations(alex, memory_id));

    graph.remove(alex, memory_id);

    assert_eq!(
        graph.entity_count(alex, memory_id),
        0,
        "a forgotten memory left its entities behind"
    );
    assert_eq!(
        graph.edge_count(alex, memory_id),
        0,
        "a forgotten memory left its edges behind"
    );
    assert!(!graph.has_relations(alex, memory_id));
}

#[test]
fn recording_replaces_rather_than_accumulates() {
    let graph = Graph::new();
    let (alex, _) = users();
    let memory_id = MemoryId::new();

    graph.record(
        alex,
        memory_id,
        &[entity("Fly.io", "service")],
        &[rel("backend", "deploys_on", "Fly.io")],
        now(),
    );
    graph.record(
        alex,
        memory_id,
        &[entity("Hetzner", "service")],
        &[rel("backend", "deploys_on", "Hetzner")],
        now(),
    );

    assert_eq!(graph.entity_count(alex, memory_id), 1);
    assert_eq!(graph.edge_count(alex, memory_id), 1);

    let found = graph.neighbours(alex, &[seed("hetzner")], 1, None, 10);
    assert!(found.contains(&memory_id));
    let gone = graph.neighbours(alex, &[seed("fly.io")], 1, None, 10);
    assert!(gone.is_empty(), "the replaced edge is still reachable");
}

#[test]
fn a_two_hop_neighbour_is_out_of_reach_at_one_hop() {
    let graph = Graph::new();
    let (alex, _) = users();
    let owns = MemoryId::new();
    let leads = MemoryId::new();

    graph.record(
        alex,
        owns,
        &[
            entity("billing service", "service"),
            entity("Meridian team", "team"),
        ],
        &[rel("billing service", "maintained_by", "Meridian team")],
        now(),
    );
    graph.record(
        alex,
        leads,
        &[entity("Nadia", "person"), entity("Meridian team", "team")],
        &[rel("Nadia", "leads", "Meridian team")],
        now(),
    );

    let one_hop = graph.neighbours(alex, &[seed("billing service")], 1, None, 10);
    assert!(
        one_hop.contains(&owns),
        "the ownership edge is one hop away"
    );
    assert!(
        !one_hop.contains(&leads),
        "Nadia is two hops away and must not appear at one"
    );

    let two_hops = graph.neighbours(alex, &[seed("billing service")], 2, None, 10);
    assert!(two_hops.contains(&owns));
    assert!(
        two_hops.contains(&leads),
        "Nadia should be reachable in two hops"
    );
    assert_eq!(two_hops, vec![owns, leads], "the nearer one comes first");
}

#[test]
fn a_hop_never_crosses_users_even_with_the_same_entity_name() {
    let graph = Graph::new();
    let (alex, sam) = users();
    let alex_memory = MemoryId::new();
    let sam_memory = MemoryId::new();

    graph.record(
        alex,
        alex_memory,
        &[
            entity("shared service", "service"),
            entity("alex thing", "thing"),
        ],
        &[rel("shared service", "relates_to", "alex thing")],
        now(),
    );
    graph.record(
        sam,
        sam_memory,
        &[
            entity("shared service", "service"),
            entity("sam thing", "thing"),
        ],
        &[rel("shared service", "relates_to", "sam thing")],
        now(),
    );

    let alex_hits = graph.neighbours(alex, &[seed("shared service")], 2, None, 10);
    assert!(alex_hits.contains(&alex_memory));
    assert!(
        !alex_hits.contains(&sam_memory),
        "alex's hop reached sam's edge"
    );

    let sam_hits = graph.neighbours(sam, &[seed("shared service")], 2, None, 10);
    assert!(sam_hits.contains(&sam_memory));
    assert!(!sam_hits.contains(&alex_memory));

    graph.remove(alex, sam_memory);
    assert_eq!(
        graph.edge_count(sam, sam_memory),
        1,
        "alex removed sam's edge"
    );
}

#[test]
fn an_empty_or_unknown_seed_reaches_nothing() {
    let graph = Graph::new();
    let (alex, _) = users();
    let memory_id = MemoryId::new();
    graph.record(
        alex,
        memory_id,
        &[
            entity("billing service", "service"),
            entity("Meridian team", "team"),
        ],
        &[rel("billing service", "maintained_by", "Meridian team")],
        now(),
    );

    assert!(
        graph.neighbours(alex, &[], 2, None, 10).is_empty(),
        "no seeds must mean no hop — this is what keeps a query naming no \
         known entity from perturbing recall"
    );
    assert!(graph
        .neighbours(alex, &[seed("nothing here")], 2, None, 10)
        .is_empty());
    assert!(graph
        .neighbours(alex, &[seed("billing service")], 0, None, 10)
        .is_empty());
    assert!(graph
        .neighbours(alex, &[seed("billing service")], 2, None, 0)
        .is_empty());
}

#[test]
fn an_edge_is_reachable_only_within_its_validity_interval() {
    let graph = Graph::new();
    let (alex, _) = users();
    let memory_id = MemoryId::new();
    graph.record(
        alex,
        memory_id,
        &[entity("backend", "component"), entity("Fly.io", "service")],
        &[rel("backend", "deploys_on", "Fly.io")],
        now(),
    );

    let before = at(NOW - DAY);
    let after = at(NOW + DAY);

    assert!(
        graph
            .neighbours(alex, &[seed("backend")], 1, Some(before), 10)
            .is_empty(),
        "the edge was visible before it became true"
    );
    assert!(graph
        .neighbours(alex, &[seed("backend")], 1, Some(after), 10)
        .contains(&memory_id));
    assert!(
        graph
            .neighbours(alex, &[seed("backend")], 1, None, 10)
            .contains(&memory_id),
        "with no as_of the current (still-open) edge should be reachable"
    );
}

#[test]
fn invalidation_closes_a_contradicted_edge_but_history_still_reads() {
    let graph = Graph::new();
    let (alex, _) = users();
    let fly_memory = MemoryId::new();
    let hetzner_memory = MemoryId::new();
    let migration = at(NOW + 30 * DAY);

    graph.record(
        alex,
        fly_memory,
        &[entity("backend", "component"), entity("Fly.io", "service")],
        &[rel("backend", "deploys_on", "Fly.io")],
        now(),
    );

    graph.invalidate(
        alex,
        &[rel("backend", "deploys_on", "Hetzner")],
        migration,
        hetzner_memory,
    );

    assert!(
        graph
            .neighbours(alex, &[seed("backend")], 1, None, 10)
            .is_empty(),
        "the contradicted edge is still live in the current view"
    );
    let midpoint = at(NOW + 15 * DAY);
    assert!(
        graph
            .neighbours(alex, &[seed("backend")], 1, Some(midpoint), 10)
            .contains(&fly_memory),
        "history was rewritten rather than preserved"
    );

    graph.record(alex, fly_memory, &[], &[], now());
    assert_eq!(
        graph.edge_count(alex, fly_memory),
        1,
        "writing the memory again dropped its history"
    );
}

#[test]
fn invalidation_spares_a_reaffirmed_edge_and_is_idempotent() {
    let graph = Graph::new();
    let (alex, _) = users();
    let memory_id = MemoryId::new();
    let by = MemoryId::new();
    graph.record(
        alex,
        memory_id,
        &[entity("backend", "component"), entity("Hetzner", "service")],
        &[rel("backend", "deploys_on", "Hetzner")],
        now(),
    );

    let when = at(NOW + DAY);
    graph.invalidate(alex, &[rel("backend", "deploys_on", "Hetzner")], when, by);
    graph.invalidate(alex, &[rel("backend", "deploys_on", "Hetzner")], when, by);

    assert!(
        graph
            .neighbours(alex, &[seed("backend")], 1, None, 10)
            .contains(&memory_id),
        "a re-affirmed edge was wrongly closed"
    );
}

fn is_at(stamp: &Stamp, time: Timestamp) -> bool {
    matches!(stamp, Stamp::At(found) if *found == time)
}

#[test]
fn an_edge_reads_back_from_its_row() {
    let rules = SqliteEntityGraph::new();
    let id = MemoryId::new();
    let by = MemoryId::new();
    let relations = vec![rel("Backend", "Deploys On", "Fly.io")];
    let mut edges = rules.replace_open_relations(id, &relations, now());
    edges[0].invalid_at = Some(at(NOW + DAY));
    edges[0].invalidated_by = Some(by);
    let row: EdgeRow = edge_row(&edges[0]);
    assert_eq!(row.subject_key, "backend");
    assert_eq!(row.predicate, "deploys_on");
    assert_eq!(row.object_name, "Fly.io");
    assert_eq!(row.invalidated_by, Some(by.to_text()));

    let back = read_link(
        row.memory_id,
        row.subject_key,
        row.object_key,
        row.valid_from,
        row.invalid_at,
    );

    assert_eq!(back.memory_id, id.to_text());
    assert_eq!(back.subject.as_str(), "backend");
    assert_eq!(back.object.as_str(), "fly.io");
    assert!(is_at(&back.valid_from, now()));
    assert!(is_at(&back.invalid_at.unwrap(), at(NOW + DAY)));
}

#[test]
fn changes_touch_only_the_callers_own_rows() {
    let graph = Graph::new();
    let (alex, sam) = users();
    let id = MemoryId::new();
    for user in [alex, sam] {
        graph.record(
            user,
            id,
            &[entity("Backend's", "component"), entity("Fly.io", "service")],
            &[rel("Backend", "Deploys On", "Fly.io")],
            now(),
        );
    }
    assert_eq!(graph.keys(alex).len(), 2);
    graph.invalidate(
        alex,
        &[rel("backend", "deploys_on", "Hetzner")],
        at(NOW + DAY),
        MemoryId::new(),
    );

    let links = graph.links(alex);
    assert!(is_at(links[0].invalid_at.as_ref().unwrap(), at(NOW + DAY)));
    assert_eq!(links[0].subject.as_str(), "backend");
    let named: i64 = graph
        .connection
        .query_row(
            "SELECT COUNT(*) FROM memory_relations
             WHERE user_id = ?1 AND predicate = 'deploys_on' AND invalidated_by IS NOT NULL",
            [alex.to_text()],
            |row| row.get(0),
        )
        .unwrap();
    assert_eq!(named, 1);

    graph.record(alex, id, &[], &[], now());
    assert_eq!(graph.edge_count(alex, id), 1, "a closed edge is history");
    graph.remove(alex, id);
    assert_eq!(graph.edge_count(alex, id), 0);
    assert_eq!(graph.keys(sam).len(), 2, "another user's rows were taken out");
    assert_eq!(graph.links(sam).len(), 1);
    assert!(graph.links(sam)[0].invalid_at.is_none());
}

#[test]
fn a_walk_over_shared_tables_reads_one_users_edges_only() {
    let graph = Graph::new();
    let (alex, sam) = users();
    let (alex_memory, sam_memory) = (MemoryId::new(), MemoryId::new());
    graph.record(alex, alex_memory, &[], &[rel("hub", "links", "alex end")], now());
    graph.record(sam, sam_memory, &[], &[rel("hub", "links", "sam end")], now());
    graph.record(sam, MemoryId::new(), &[], &[rel("sam end", "links", "alex end")], now());

    assert_eq!(
        graph.neighbours(alex, &[seed("hub")], 5, None, 10),
        vec![alex_memory]
    );
    assert_eq!(
        graph.links(alex).len(),
        1,
        "another user's edges were read"
    );
    assert_eq!(graph.neighbours(sam, &[seed("hub")], 1, None, 10), vec![sam_memory]);
}

#[test]
fn at_one_distance_the_memory_that_more_of_the_entities_reach_comes_first() {
    let graph = Graph::new();
    let (alex, _) = users();
    let (m1, m2) = (MemoryId::new(), MemoryId::new());
    graph.record(
        alex,
        m1,
        &[],
        &[rel("a", "p", "x"), rel("a", "p", "y"), rel("a", "p", "z")],
        now(),
    );
    graph.record(alex, m2, &[], &[rel("a", "q", "d")], now());

    assert_eq!(
        graph.neighbours(alex, &[seed("a"), seed("d"), seed("a"), seed("")], 1, None, 10),
        vec![m2, m1]
    );
}

#[test]
fn a_malformed_row_shows_only_where_a_walk_answers_it() {
    let graph = Graph::new();
    let (alex, _) = users();
    let id = MemoryId::new();
    graph.record(alex, id, &[], &[rel("a", "p", "b")], now());
    graph.put_row(alex, "nope", ("u", "v"), &now().to_text());

    assert_eq!(graph.neighbours(alex, &[seed("a")], 1, None, 10), vec![id]);
    assert!(graph
        .try_neighbours(alex, &[seed("u")], 1, None, 10)
        .unwrap_err()
        .message()
        .starts_with("graph memory id \"nope\" is not a uuid: "));
    graph.invalidate(alex, &[rel("a", "p", "c")], at(NOW + DAY), MemoryId::new());
    assert_eq!(graph.links(alex).len(), 2, "the malformed row went missing");
}

#[test]
fn a_walk_goes_on_through_a_malformed_row() {
    let graph = Graph::new();
    let (alex, _) = users();
    let (near, far) = (MemoryId::new(), MemoryId::new());
    graph.record(alex, near, &[], &[rel("a", "p", "m")], now());
    graph.put_row(alex, "nope", ("m", "n"), &now().to_text());
    graph.record(alex, far, &[], &[rel("n", "p", "z")], now());

    assert_eq!(graph.neighbours(alex, &[seed("a")], 3, None, 1), vec![near]);
    assert!(graph.try_neighbours(alex, &[seed("a")], 2, None, 10).is_err());
    let links = graph.links(alex);
    let reached = graph
        .rules
        .walk(&links, &vec![seed("a")], 3, None, at(NOW + DAY), 10);
    assert_eq!(
        reached,
        vec![near.to_text(), "nope".to_string(), far.to_text()]
    );
}

#[test]
fn a_row_whose_time_reads_as_none_is_compared_as_text() {
    let graph = Graph::new();
    let (alex, _) = users();
    let (early, late) = (MemoryId::new(), MemoryId::new());
    graph.put_row(alex, &early.to_text(), ("a", "b"), "1999 or so");
    graph.put_row(alex, &late.to_text(), ("a", "c"), "once");

    assert_eq!(graph.neighbours(alex, &[seed("a")], 1, None, 10), vec![early]);
    assert!(graph.has_relations(alex, early));
    assert!(graph.has_relations(alex, late), "a row counts whatever its time");
}

#[test]
fn a_change_that_fails_takes_the_others_back() {
    let graph = Graph::new();
    let (alex, _) = users();
    let id = MemoryId::new();
    graph.record(
        alex,
        id,
        &[entity("Backend", "component")],
        &[rel("Backend", "deploys_on", "Fly.io")],
        now(),
    );
    graph
        .connection
        .execute_batch(
            "CREATE TRIGGER full BEFORE INSERT ON memory_relations
             BEGIN SELECT RAISE(ABORT, 'full'); END",
        )
        .unwrap();
    let changes = graph.rules.record(
        id,
        &vec![entity("Frontend", "component"), entity("Web", "service")],
        &vec![rel("Frontend", "deploys_on", "Hetzner")],
        now(),
    );

    let error = graph.try_make(alex, changes).unwrap_err();

    assert!(error.message().contains("full"));
    assert_eq!(graph.keys(alex).len(), 1, "the entities were not taken back");
    assert_eq!(graph.keys(alex)[0].as_str(), "backend");
    assert_eq!(graph.links(alex).len(), 1, "the edges were not taken back");
    assert_eq!(graph.links(alex)[0].object.as_str(), "fly.io");
}

#[test]
fn making_no_changes_succeeds_and_a_failed_start_or_commit_is_told() {
    let rules = SqliteEntityGraph::new();
    let none: Vec<GraphChange> = Vec::new();
    let broken = || RaError::Internal("broken".to_string());
    assert!(matches!(rules.begun(&none, Ok(())), GraphStep::Commit));
    assert!(matches!(rules.committed(Ok(())), GraphStep::Done(Ok(()))));
    assert!(matches!(
        rules.begun(&none, Err(broken())),
        GraphStep::Done(Err(e)) if e.message() == broken().message()
    ));
    assert!(matches!(
        rules.committed(Err(broken())),
        GraphStep::RollBack { error } if error.message() == broken().message()
    ));
    assert!(matches!(
        rules.rolled_back(broken()),
        GraphStep::Done(Err(e)) if e.message() == broken().message()
    ));
}

#[test]
fn a_walk_has_one_answer_whatever_the_order_of_the_rows() {
    let graph = Graph::new();
    let (alex, _) = users();
    for (subject, object) in [("a", "b"), ("c", "a"), ("b", "d"), ("a", "e")] {
        graph.record(alex, MemoryId::new(), &[], &[rel(subject, "p", object)], now());
    }
    let links = graph.links(alex);
    let mut turned = graph.links(alex);
    turned.reverse();
    let walk = |links: &Vec<Link>| {
        let seeds = vec![seed("a"), seed("d")];
        graph.rules.walk(links, &seeds, 2, None, at(NOW + DAY), 3)
    };

    assert_eq!(walk(&links).len(), 3);
    assert_eq!(walk(&links), walk(&links));
    assert_eq!(walk(&links), walk(&turned));
}

#[test]
fn recording_twice_files_nothing_twice() {
    let graph = Graph::new();
    let (alex, _) = users();
    let id = MemoryId::new();
    for _ in 0..2 {
        graph.record(
            alex,
            id,
            &[entity("Fly.io", "service"), entity("fly.io.", "service")],
            &[rel("backend", "deploys_on", "Fly.io")],
            now(),
        );
    }
    assert_eq!(graph.entity_count(alex, id), 1);
    assert_eq!(graph.edge_count(alex, id), 1);
}

#[test]
fn the_default_build_has_no_graph_and_enabling_it_wires_one() {
    let off = AppConfig::default();
    assert!(!off.graph.enabled, "the graph must default to off");

    let mut on = AppConfig::default();
    on.graph.enabled = true;
    assert!(on.graph.enabled);
}

// ---- the backfill cursor ----

fn read_cursor(connection: &Connection, user: UserId) -> Option<Timestamp> {
    let state = SqliteGraphBackfillState::new();
    let statement = state.read_cursor(user);
    let row = connection
        .query_row(&statement.sql, params_from_iter(bound(&statement)), |row| {
            row.get::<_, String>(0)
        })
        .ok();
    state.relations_cursor(row).unwrap()
}

fn write_cursor(connection: &Connection, user: UserId, cursor: Timestamp) {
    run(
        connection,
        &SqliteGraphBackfillState::new().set_relations_cursor(user, cursor),
    );
}

#[test]
fn a_missing_cursor_reads_as_none() {
    let connection = database();
    let (alex, _) = users();
    assert_eq!(read_cursor(&connection, alex), None);
}

#[test]
fn a_cursor_round_trips_and_is_overwritten_on_the_next_write() {
    let connection = database();
    let (alex, _) = users();
    write_cursor(&connection, alex, at(1_000));
    assert_eq!(read_cursor(&connection, alex), Some(at(1_000)));

    write_cursor(&connection, alex, at(2_000));
    assert_eq!(read_cursor(&connection, alex), Some(at(2_000)));
}

#[test]
fn one_users_cursor_is_invisible_to_another() {
    let connection = database();
    let (alex, sam) = users();
    write_cursor(&connection, alex, at(1_000));

    assert_eq!(read_cursor(&connection, sam), None);
}

#[test]
fn a_cursor_that_is_no_time_is_an_error() {
    let error = SqliteGraphBackfillState::new()
        .relations_cursor(Some("soon".to_string()))
        .unwrap_err();
    assert!(
        error.message().starts_with("stored backfill cursor \"soon\": "),
        "{error:?}"
    );
}

// ---- reindexing ----

/// As wide as asked, and different for different texts.
fn fake_embedding(text: &str, dimensions: usize) -> Vec<u32> {
    (0..dimensions)
        .map(|i| ((text.len() + i) as f32 / 100.0).to_bits())
        .collect()
}

fn reindex(connection: &Connection, model: &str, dimensions: usize) -> Result<ReindexReport> {
    reindex_with(connection, model, dimensions, |contents| {
        Ok(contents
            .iter()
            .map(|content| fake_embedding(content, dimensions))
            .collect())
    })
}

/// Performs the steps of a reindex. A plain table stands in for the virtual
/// one.
fn reindex_with(
    connection: &Connection,
    model: &str,
    dimensions: usize,
    mut embed: impl FnMut(&[String]) -> Result<Vec<Vec<u32>>>,
) -> Result<ReindexReport> {
    let reindexer = SqliteReindexer::new(model, dimensions);
    let pin = reindexer.read_pin();
    let mut from = connection
        .query_row(&pin.sql, [], |row| {
            Ok(Pin {
                model: row.get(0)?,
                dimensions: row.get(1)?,
            })
        })
        .ok();
    let mut prepared = connection.prepare(&reindexer.read_rows().sql).unwrap();
    let rows: Vec<ReindexRow> = prepared
        .query_map([], |row| {
            Ok(ReindexRow {
                id: row.get(0)?,
                user_id: row.get(1)?,
                content: row.get(2)?,
            })
        })
        .unwrap()
        .map(|row| row.unwrap())
        .collect();
    let mut step = reindexer.begin();
    loop {
        step = match step {
            ReindexStep::Begin => {
                connection.execute_batch("BEGIN").unwrap();
                reindexer.begun(Ok(()))
            }
            ReindexStep::Rebuild { drop_old, create } => {
                run(connection, &drop_old);
                assert!(create.sql.contains(&format!("float[{dimensions}]")));
                connection
                    .execute_batch(
                        "CREATE TABLE vec_memories (memory_id TEXT PRIMARY KEY,
                             user_id TEXT NOT NULL, embedding BLOB NOT NULL);",
                    )
                    .unwrap();
                reindexer.rebuilt(&rows, Ok(()))
            }
            ReindexStep::Embed {
                contents,
                task,
                done,
            } => {
                assert_eq!(task, EmbeddingTask::Document);
                assert!(contents.len() <= 128);
                reindexer.embedded(&rows, done, embed(&contents))
            }
            ReindexStep::Write { statements, done } => {
                for statement in &statements {
                    run(connection, statement);
                }
                reindexer.written(&rows, done, Ok(()))
            }
            ReindexStep::Repin(statement) => {
                run(connection, &statement);
                reindexer.repinned(Ok(()))
            }
            ReindexStep::Commit => {
                connection.execute_batch("COMMIT").unwrap();
                reindexer.committed(&rows, from.take(), Ok(()))
            }
            ReindexStep::RollBack { error } => {
                connection.execute_batch("ROLLBACK").unwrap();
                reindexer.rolled_back(error)
            }
            ReindexStep::Done(outcome) => return outcome,
        };
    }
}

/// The table of vectors and the pins, as they are.
fn vectors_and_pins(connection: &Connection) -> (Vec<(String, Vec<u8>)>, Vec<(String, i64)>) {
    let vectors = connection
        .prepare("SELECT memory_id, embedding FROM vec_memories ORDER BY memory_id")
        .unwrap()
        .query_map([], |row| Ok((row.get(0)?, row.get(1)?)))
        .unwrap()
        .map(|row| row.unwrap())
        .collect();
    let pins = connection
        .prepare("SELECT embedding_model, dimensions FROM collections ORDER BY id")
        .unwrap()
        .query_map([], |row| Ok((row.get(0)?, row.get(1)?)))
        .unwrap()
        .map(|row| row.unwrap())
        .collect();
    (vectors, pins)
}

fn stored_contents(connection: &Connection) -> Vec<(String, String)> {
    let mut prepared = connection
        .prepare("SELECT id, content FROM memories ORDER BY id")
        .unwrap();
    let stored = prepared
        .query_map([], |row| Ok((row.get(0)?, row.get(1)?)))
        .unwrap()
        .map(|row| row.unwrap())
        .collect();
    stored
}

#[test]
fn a_failed_reindex_leaves_the_store_as_it_was() {
    let connection = database();
    let (alex, _) = users();
    let repo = Repository::new(&connection, "old-model", 64);
    for index in 0..130 {
        repo.insert(alex, &memory_for(alex, &format!("note {index}")), "test")
            .unwrap();
    }
    reindex(&connection, "old-model", 64).unwrap();
    let before = vectors_and_pins(&connection);
    let memories = stored_contents(&connection);
    assert_eq!(before.0.len(), 130);

    let mut batches = 0;
    let error = reindex_with(&connection, "new-model", 32, |contents| {
        batches += 1;
        if batches == 2 {
            return Err(RaError::Internal("the provider went away".to_string()));
        }
        Ok(contents.iter().map(|c| fake_embedding(c, 32)).collect())
    })
    .unwrap_err();
    assert_eq!(batches, 2, "the first batch was written before the failure");
    assert_eq!(error.message(), "the provider went away");
    assert_eq!(vectors_and_pins(&connection), before);

    let error = reindex_with(&connection, "new-model", 32, |_| Ok(Vec::new())).unwrap_err();
    assert_eq!(
        error.message(),
        "embedder returned 0 vectors for 128 memories"
    );
    assert_eq!(vectors_and_pins(&connection), before);

    reindex(&connection, "new-model", 32).unwrap();
    let after = vectors_and_pins(&connection);
    assert_eq!(after.0.len(), 130);
    assert_eq!(after.1, vec![("new-model".to_string(), 32)]);
    assert_eq!(stored_contents(&connection), memories);
}

#[test]
fn every_failure_inside_a_reindex_undoes_it() {
    let reindexer = SqliteReindexer::new("m", 2);
    let rows = vec![ReindexRow {
        id: fresh(),
        user_id: fresh(),
        content: "x".to_string(),
    }];
    let broken = || Err(RaError::Internal("broken".to_string()));
    let undone = |step: ReindexStep| match step {
        ReindexStep::RollBack { error } => assert_eq!(error.message(), "broken"),
        other => panic!("{other:?}"),
    };
    undone(reindexer.rebuilt(&rows, broken()));
    undone(reindexer.written(&rows, 1, broken()));
    undone(reindexer.repinned(broken()));
    undone(reindexer.committed(&rows, None, broken()));
    assert!(matches!(
        reindexer.begun(broken()),
        ReindexStep::Done(Err(_))
    ));
    assert!(matches!(
        reindexer.rolled_back(RaError::Internal("broken".to_string())),
        ReindexStep::Done(Err(_))
    ));
}

#[test]
fn a_model_switch_re_embeds_in_place_and_recall_then_works() {
    let connection = database();
    let (alex, _) = users();

    let old_repo = Repository::new(&connection, "old-model", 64);
    let memories: Vec<Memory> = ["User prefers pnpm", "Deploys on Hetzner", "Vegetarian"]
        .iter()
        .map(|content| {
            let m = memory_for(alex, content);
            old_repo.insert(alex, &m, "test").unwrap();
            m
        })
        .collect();

    let report = reindex(&connection, "new-model", 32).unwrap();

    assert_eq!(report.reindexed, 3);
    assert_eq!(report.from, Some(("old-model".to_string(), 64)));
    assert_eq!(report.to.1, 32);

    let new_repo = Repository::new(&connection, "new-model", 32);
    let stored: Vec<(String, usize)> = connection
        .prepare("SELECT memory_id, length(embedding) FROM vec_memories")
        .unwrap()
        .query_map([], |row| {
            Ok((row.get::<_, String>(0)?, row.get::<_, i64>(1)? as usize))
        })
        .unwrap()
        .map(|row| row.unwrap())
        .collect();
    assert_eq!(stored.len(), 3, "every memory should have been re-embedded");
    assert!(stored.iter().all(|(_, length)| *length == 4 * 32));
    assert!(stored.iter().any(|(id, _)| *id == memories[0].id().to_text()));

    let fresh = memory_for(alex, "a new memory after reindex");
    new_repo
        .insert(alex, &fresh, "test")
        .expect("the repin should let the new model write");
}

#[test]
fn reindexing_an_empty_store_is_a_no_op() {
    let connection = database();

    let report = reindex(&connection, "new-model", 32).unwrap();

    assert_eq!(report.reindexed, 0);
    assert_eq!(
        report.from, None,
        "an empty store had no pin to change from"
    );
    assert_eq!(report.to.1, 32);
}

#[test]
fn soft_deleted_memories_are_not_re_embedded() {
    let connection = database();
    let (alex, _) = users();

    let repo = Repository::new(&connection, "old-model", 64);
    let kept = memory_for(alex, "kept");
    let gone = memory_for(alex, "forgotten");
    repo.insert(alex, &kept, "test").unwrap();
    repo.insert(alex, &gone, "test").unwrap();
    repo.delete(alex, gone.id(), "test", "no longer wanted").unwrap();

    let report = reindex(&connection, "new-model", 32).unwrap();

    assert_eq!(
        report.reindexed, 1,
        "only the memory that still has a vector should be re-embedded"
    );
}

#[test]
fn a_large_store_is_embedded_in_batches() {
    let connection = database();
    let (alex, _) = users();
    let repo = Repository::new(&connection, "old-model", 64);
    for index in 0..300 {
        repo.insert(alex, &memory_for(alex, &format!("note {index}")), "test")
            .unwrap();
    }

    let report = reindex(&connection, "new-model", 32).unwrap();

    assert_eq!(report.reindexed, 300);
    let stored: i64 = connection
        .query_row("SELECT COUNT(*) FROM vec_memories", [], |row| row.get(0))
        .unwrap();
    assert_eq!(stored, 300);
}

#[test]
fn a_short_batch_of_vectors_is_refused() {
    let rows = vec![ReindexRow {
        id: fresh(),
        user_id: fresh(),
        content: "x".to_string(),
    }];
    match SqliteReindexer::new("m", 2).embedded(&rows, 0, Ok(vec![])) {
        ReindexStep::RollBack { error } => {
            assert_eq!(error.message(), "embedder returned 0 vectors for 1 memories");
        }
        other => panic!("{other:?}"),
    }
}

#[test]
fn an_upsert_deletes_before_it_adds() {
    let (alex, _) = users();
    let memory = memory_for(alex, "prefers pnpm");
    let steps = TantivyTextIndex.upsert(&memory);
    assert!(matches!(&steps[0], IndexStep::Delete(id) if *id == memory.id().to_text()));
    assert!(matches!(&steps[1], IndexStep::Add(d) if d.content == "prefers pnpm"));
    assert!(matches!(&steps[2], IndexStep::Commit));
    assert_eq!(steps.len(), 3);

    let steps = TantivyTextIndex.remove(memory.id());
    assert!(matches!(&steps[0], IndexStep::Delete(id) if *id == memory.id().to_text()));
    assert!(matches!(&steps[1], IndexStep::Commit));
    assert!(TantivyTextIndex.found(SearchReply::Unparsed).is_empty());
}
