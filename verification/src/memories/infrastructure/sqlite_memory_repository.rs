//! The memory store's rules: which statement each operation is, how a memory
//! becomes a row and a row a memory, and what the number of affected rows
//! means.
//!
//! Every statement carries the caller's own user, so that naming another
//! user's memory affects no row at all.
use super::sql::{
    holds_text, lemma_holds_at, lemma_scoped, longer_texts_hold_as_much, optional_param, optional_text,
    owner_clause, owner_clauses_name_their_place, param_views, text_param, SqlValue, SqlView,
    Statement,
};
use crate::json::{
    compact_document, field_of, fields_upto, get_field, is_plain, json_compact, json_parse,
    json_strings, json_tree, json_trees, list_in, list_value, object_value, parse_document,
    parse_strings, render_strings, text_in, text_list, text_value, value_items, value_text, JsonTree,
};
use crate::memories::application::memory_finder::{not_found, not_found_text};
use crate::memories::domain::category::{stored_category, Category};
use crate::memories::domain::memory::{
    entity_views, option_text, Entity, EntityView, Memory, MemorySource, MemoryView, SourceView,
};
use crate::memories::domain::memory_repository::{operation_of, AuditEntry, AuditOperation};
use crate::shared::error::{RaError, Result};
use crate::shared::ids::{uuid_complaint, uuid_of_text, MemoryId, UserId};
use crate::shared::time::{rfc3339_complaint, rfc3339_instant, Timestamp};
use crate::text::{debug_text, decimal, decimal_text, join, joined, quote, same_text, texts};
use vstd::prelude::*;
use vstd::string::StringExecFns;

verus! {

/// Each user has a single collection, at which the embedding model is pinned.
pub const DEFAULT_COLLECTION: &'static str = "main";

/// A memory as the store holds it. Numbers with a fraction are held by their
/// bit patterns.
#[derive(Debug)]
pub struct MemoryRow {
    pub id: String,
    pub user_id: String,
    pub content: String,
    pub category: String,
    pub subcategory: Option<String>,
    pub tags: String,
    pub entities: String,
    pub confidence: u32,
    pub importance: u32,
    pub access_count: u64,
    pub source_client: Option<String>,
    pub source_session_id: Option<String>,
    pub created_at: String,
    pub updated_at: String,
    pub last_accessed_at: Option<String>,
    pub expires_at: Option<String>,
    pub superseded_by: Option<String>,
}

/// The list of tags that a column denotes; none, if it is not one.
pub open spec fn decoded_tags(raw: Seq<char>) -> Seq<Seq<char>> {
    match json_strings(raw) {
        Some(tags) => tags,
        None => Seq::empty(),
    }
}

/// An entity that a document describes, if it names both parts.
pub open spec fn entity_of(tree: JsonTree) -> Option<EntityView> {
    match (text_in(field_of(tree, "name"@)), text_in(field_of(tree, "kind"@))) {
        (Some(name), Some(kind)) => Some(EntityView { name, kind }),
        _ => None,
    }
}

/// The entities that documents describe, the others left out.
pub open spec fn entities_of(trees: Seq<JsonTree>) -> Seq<EntityView>
    decreases trees.len(),
{
    if trees.len() == 0 {
        Seq::empty()
    } else {
        match entity_of(trees.last()) {
            Some(entity) => entities_of(trees.drop_last()).push(entity),
            None => entities_of(trees.drop_last()),
        }
    }
}

/// The list of entities that a column denotes; none, if it is not one.
pub open spec fn decoded_entities(raw: Seq<char>) -> Seq<EntityView> {
    match list_in(json_parse(raw)) {
        Some(trees) => entities_of(trees),
        None => Seq::empty(),
    }
}

/// An entity as a document.
pub open spec fn entity_tree(entity: EntityView) -> JsonTree {
    JsonTree::Object(
        Map::<Seq<char>, JsonTree>::empty().insert("name"@, JsonTree::Text(entity.name)).insert(
            "kind"@,
            JsonTree::Text(entity.kind),
        ),
    )
}

pub open spec fn entity_trees(entities: Seq<EntityView>) -> JsonTree {
    JsonTree::List(entities.map_values(|e: EntityView| entity_tree(e)))
}

/// The point in time that an optional column denotes.
pub open spec fn optional_instant(raw: Option<String>) -> Option<Timestamp> {
    match raw {
        Some(r) => Some(Timestamp::of_parts(rfc3339_instant(r@)->0)),
        None => None,
    }
}

pub open spec fn time_complaint(raw: Seq<char>) -> Seq<char> {
    "stored timestamp "@ + debug_text(raw) + " is not rfc3339: "@ + rfc3339_complaint(raw)
}

/// Why a row is not a memory, if it is not: what is wrong first.
pub open spec fn row_complaint(row: MemoryRow) -> Option<Seq<char>> {
    if uuid_of_text(row.id@) is None {
        Some("stored memory id "@ + debug_text(row.id@) + ": "@ + uuid_complaint(row.id@))
    } else if uuid_of_text(row.user_id@) is None {
        Some("stored user id "@ + debug_text(row.user_id@) + ": "@ + uuid_complaint(row.user_id@))
    } else if rfc3339_instant(row.created_at@) is None {
        Some(time_complaint(row.created_at@))
    } else if rfc3339_instant(row.updated_at@) is None {
        Some(time_complaint(row.updated_at@))
    } else if row.last_accessed_at is Some && rfc3339_instant(row.last_accessed_at->0@) is None {
        Some(time_complaint(row.last_accessed_at->0@))
    } else if row.expires_at is Some && rfc3339_instant(row.expires_at->0@) is None {
        Some(time_complaint(row.expires_at->0@))
    } else if row.superseded_by is Some && uuid_of_text(row.superseded_by->0@) is None {
        Some(
            "stored superseded_by "@ + debug_text(row.superseded_by->0@) + ": "@ + uuid_complaint(
                row.superseded_by->0@,
            ),
        )
    } else {
        None
    }
}

/// The memory that a row is.
pub open spec fn row_memory(row: MemoryRow) -> MemoryView {
    MemoryView {
        id: MemoryId { value: uuid_of_text(row.id@)->0 },
        user_id: UserId { value: uuid_of_text(row.user_id@)->0 },
        content: row.content@,
        category: stored_category(row.category@),
        subcategory: option_text(row.subcategory),
        tags: decoded_tags(row.tags@),
        entities: decoded_entities(row.entities@),
        confidence: row.confidence,
        importance: row.importance,
        access_count: row.access_count,
        source: SourceView {
            client: option_text(row.source_client),
            session_id: option_text(row.source_session_id),
        },
        created_at: Timestamp::of_parts(rfc3339_instant(row.created_at@)->0),
        updated_at: Timestamp::of_parts(rfc3339_instant(row.updated_at@)->0),
        last_accessed_at: optional_instant(row.last_accessed_at),
        expires_at: optional_instant(row.expires_at),
        superseded_by: match row.superseded_by {
            Some(raw) => Some(MemoryId { value: uuid_of_text(raw@)->0 }),
            None => None,
        },
    }
}

/// Whether RFC 3339 text carries every point in time of a memory.
pub open spec fn is_writable(memory: MemoryView) -> bool {
    &&& memory.created_at.writable()
    &&& memory.updated_at.writable()
    &&& memory.last_accessed_at is Some ==> memory.last_accessed_at->0.writable()
    &&& memory.expires_at is Some ==> memory.expires_at->0.writable()
}

/// The tags as a column.
pub fn encode_tags(tags: &Vec<String>) -> (column: String)
    ensures
        column@ == json_compact(text_list(texts(tags@))),
        decoded_tags(column@) == texts(tags@),
{
    render_strings(tags)
}

/// The tags of a column.
pub fn decode_tags(raw: &str) -> (tags: Vec<String>)
    ensures
        texts(tags@) == decoded_tags(raw@),
{
    match parse_strings(raw) {
        Some(tags) => tags,
        None => {
            let none: Vec<String> = Vec::new();
            assert(texts(none@) =~= Seq::empty());
            none
        },
    }
}

fn entity_value(entity: &Entity) -> (value: serde_json::Value)
    ensures
        json_tree(value) == entity_tree(entity@),
{
    let mut fields: Vec<(String, serde_json::Value)> = Vec::new();
    fields.push(("name".to_owned(), text_value(entity.name.as_str())));
    fields.push(("kind".to_owned(), text_value(entity.kind.as_str())));
    proof {
        reveal_with_fuel(fields_upto, 3);
    }
    object_value(fields)
}

/// The entities as a column, from which they are read back.
pub fn encode_entities(entities: &Vec<Entity>) -> (column: String)
    ensures
        column@ == json_compact(entity_trees(entity_views(entities@))),
        decoded_entities(column@) == entity_views(entities@),
{
    let ghost views = entity_views(entities@);
    let mut items: Vec<serde_json::Value> = Vec::new();
    let mut i: usize = 0;
    while i < entities.len()
        invariant
            0 <= i <= entities@.len(),
            items@.len() == i,
            views == entity_views(entities@),
            forall|j: int| 0 <= j < i ==> json_tree(#[trigger] items@[j]) == entity_tree(views[j]),
        decreases entities@.len() - i,
    {
        items.push(entity_value(&entities[i]));
        i += 1;
    }
    let ghost trees = views.map_values(|e: EntityView| entity_tree(e));
    proof {
        assert(json_trees(items@) =~= trees);
        lemma_entities_are_plain(views);
        lemma_entities_round_trip(views);
    }
    compact_document(&list_value(items))
}

proof fn lemma_entity_fields(entity: EntityView)
    ensures
        entity_of(entity_tree(entity)) == Some(entity),
        is_plain(entity_tree(entity), 99),
{
    reveal_strlit("name");
    reveal_strlit("kind");
    assert("name"@[0] != "kind"@[0]);
    let fields = entity_tree(entity)->Object_0;
    assert forall|k: Seq<char>| #[trigger] fields.contains_key(k) implies is_plain(
        fields[k],
        98,
    ) by {
        assert(k == "name"@ || k == "kind"@);
    }
}

proof fn lemma_entities_are_plain(entities: Seq<EntityView>)
    ensures
        is_plain(entity_trees(entities), 100),
{
    let trees = entities.map_values(|e: EntityView| entity_tree(e));
    assert forall|i: int| 0 <= i < trees.len() implies is_plain(#[trigger] trees[i], 99) by {
        lemma_entity_fields(entities[i]);
    }
}

proof fn lemma_entities_round_trip(entities: Seq<EntityView>)
    ensures
        entities_of(entities.map_values(|e: EntityView| entity_tree(e))) == entities,
    decreases entities.len(),
{
    let trees = entities.map_values(|e: EntityView| entity_tree(e));
    if entities.len() == 0 {
        assert(entities =~= Seq::empty());
    } else {
        lemma_entities_round_trip(entities.drop_last());
        assert(trees.drop_last() =~= entities.drop_last().map_values(
            |e: EntityView| entity_tree(e),
        ));
        lemma_entity_fields(entities.last());
        assert(entities.drop_last().push(entities.last()) =~= entities);
    }
}

fn read_entity(value: &serde_json::Value) -> (entity: Option<Entity>)
    ensures
        match entity {
            Some(e) => entity_of(json_tree(*value)) == Some(e@),
            None => entity_of(json_tree(*value)) is None,
        },
{
    let name = match get_field(value, "name") {
        Some(field) => value_text(field),
        None => None,
    };
    let kind = match get_field(value, "kind") {
        Some(field) => value_text(field),
        None => None,
    };
    match (name, kind) {
        (Some(name), Some(kind)) => Some(Entity { name, kind }),
        _ => None,
    }
}

/// The entities of a column. What is not an entity in it is left out.
pub fn decode_entities(raw: &str) -> (entities: Vec<Entity>)
    ensures
        entity_views(entities@) == decoded_entities(raw@),
{
    let mut entities: Vec<Entity> = Vec::new();
    assert(entity_views(entities@) =~= Seq::empty());
    let document = match parse_document(raw) {
        Ok(document) => document,
        Err(_) => return entities,
    };
    match value_items(&document) {
        None => {},
        Some(items) => {
            let ghost trees = json_trees(items@);
            let mut i: usize = 0;
            assert(trees.take(0) =~= Seq::empty());
            while i < items.len()
                invariant
                    0 <= i <= items@.len(),
                    trees == json_trees(items@),
                    entity_views(entities@) == entities_of(trees.take(i as int)),
                decreases items@.len() - i,
            {
                proof {
                    assert(trees.take(i + 1).drop_last() =~= trees.take(i as int));
                    assert(trees.take(i + 1).last() == json_tree(items@[i as int]));
                }
                match read_entity(&items[i]) {
                    Some(entity) => {
                        let ghost before = entities@;
                        let ghost added = entity@;
                        entities.push(entity);
                        assert(entity_views(entities@) =~= entity_views(before).push(added));
                    },
                    None => {},
                }
                i += 1;
            }
            assert(trees.take(trees.len() as int) =~= trees);
        },
    }
    entities
}

/// Reads a stored point in time.
pub fn parse_timestamp(raw: &str) -> (time: Result<Timestamp>)
    ensures
        match time {
            Ok(t) => rfc3339_instant(raw@) == Some(t.parts()) && t == Timestamp::of_parts(
                rfc3339_instant(raw@)->0,
            ),
            Err(e) => rfc3339_instant(raw@) is None && e is Internal && e.text() == time_complaint(
                raw@,
            ),
        },
{
    match Timestamp::parse(raw) {
        Ok(time) => Ok(time),
        Err(reason) => {
            let mut sentence = "stored timestamp ".to_owned();
            sentence.append(quote(raw).as_str());
            sentence.append(" is not rfc3339: ");
            sentence.append(reason.as_str());
            Err(RaError::Internal(sentence))
        },
    }
}

fn parse_optional_timestamp(raw: &Option<String>) -> (time: Result<Option<Timestamp>>)
    ensures
        match time {
            Ok(t) => t == optional_instant(*raw) && (raw is Some ==> rfc3339_instant(raw->0@)
                is Some),
            Err(e) => raw is Some && rfc3339_instant(raw->0@) is None && e is Internal && e.text()
                == time_complaint(raw->0@),
        },
{
    match raw {
        None => Ok(None),
        Some(r) => match parse_timestamp(r.as_str()) {
            Ok(time) => Ok(Some(time)),
            Err(e) => Err(e),
        },
    }
}

fn stored_id_complaint(label: &str, raw: &str, reason: &str) -> (error: RaError)
    ensures
        error is Internal,
        error.text() == label@ + debug_text(raw@) + ": "@ + reason@,
{
    let mut sentence = label.to_owned();
    sentence.append(quote(raw).as_str());
    sentence.append(": ");
    sentence.append(reason);
    RaError::Internal(sentence)
}

/// The memory that a row is, or what is wrong with the row.
pub fn build_memory(row: MemoryRow) -> (memory: Result<Memory>)
    ensures
        match memory {
            Ok(m) => row_complaint(row) is None && m@ == row_memory(row),
            Err(e) => e is Internal && row_complaint(row) == Some(e.text()),
        },
{
    let id = match MemoryId::parse(row.id.as_str()) {
        Ok(id) => id,
        Err(reason) => return Err(
            stored_id_complaint("stored memory id ", row.id.as_str(), reason.as_str()),
        ),
    };
    let user_id = match UserId::parse(row.user_id.as_str()) {
        Ok(id) => id,
        Err(reason) => return Err(
            stored_id_complaint("stored user id ", row.user_id.as_str(), reason.as_str()),
        ),
    };
    let created_at = match parse_timestamp(row.created_at.as_str()) {
        Ok(time) => time,
        Err(e) => return Err(e),
    };
    let updated_at = match parse_timestamp(row.updated_at.as_str()) {
        Ok(time) => time,
        Err(e) => return Err(e),
    };
    let last_accessed_at = match parse_optional_timestamp(&row.last_accessed_at) {
        Ok(time) => time,
        Err(e) => return Err(e),
    };
    let expires_at = match parse_optional_timestamp(&row.expires_at) {
        Ok(time) => time,
        Err(e) => return Err(e),
    };
    let superseded_by = match &row.superseded_by {
        None => None,
        Some(raw) => match MemoryId::parse(raw.as_str()) {
            Ok(id) => Some(id),
            Err(reason) => return Err(
                stored_id_complaint("stored superseded_by ", raw.as_str(), reason.as_str()),
            ),
        },
    };
    Ok(
        Memory::from_stored(
            id,
            user_id,
            row.content,
            Category::from_stored(row.category.as_str()),
            row.subcategory,
            decode_tags(row.tags.as_str()),
            decode_entities(row.entities.as_str()),
            row.confidence,
            row.importance,
            row.access_count,
            MemorySource { client: row.source_client, session_id: row.source_session_id },
            created_at,
            updated_at,
            last_accessed_at,
            expires_at,
            superseded_by,
        ),
    )
}

fn optional_time_text(time: Option<Timestamp>) -> (text: Option<String>)
    ensures
        match time {
            Some(t) => text matches Some(s) && s@ == t.text() && (t.writable() ==> rfc3339_instant(
                s@,
            ) == Some(t.parts())),
            None => text is None,
        },
{
    match time {
        Some(t) => Some(t.to_text()),
        None => None,
    }
}

/// `row` holds `memory` under `owner`.
pub open spec fn is_row_of(row: MemoryRow, memory: MemoryView, owner: UserId) -> bool {
    &&& row.id@ == memory.id.text()
    &&& row.user_id@ == owner.text()
    &&& row.content@ == memory.content
    &&& row.category@ == memory.category.name()
    &&& option_text(row.subcategory) == memory.subcategory
    &&& row.tags@ == json_compact(text_list(memory.tags))
    &&& row.entities@ == json_compact(entity_trees(memory.entities))
    &&& row.confidence == memory.confidence
    &&& row.importance == memory.importance
    &&& row.access_count == memory.access_count
    &&& option_text(row.source_client) == memory.source.client
    &&& option_text(row.source_session_id) == memory.source.session_id
    &&& row.created_at@ == memory.created_at.text()
    &&& row.updated_at@ == memory.updated_at.text()
    &&& option_text(row.last_accessed_at) == time_text(memory.last_accessed_at)
    &&& option_text(row.expires_at) == time_text(memory.expires_at)
    &&& option_text(row.superseded_by) == (match memory.superseded_by {
        Some(id) => Some(id.text()),
        None => None,
    })
}

pub open spec fn time_text(time: Option<Timestamp>) -> Option<Seq<char>> {
    match time {
        Some(t) => Some(t.text()),
        None => None,
    }
}

/// The row that a memory is stored as, under the user who stores it. Reading
/// the row gives the memory back, except for what RFC 3339 text cannot carry
/// and for a category whose name reads as another one.
pub fn memory_row(owner: UserId, memory: &Memory) -> (row: MemoryRow)
    ensures
        is_row_of(row, memory@, owner),
        is_writable(memory@) ==> row_complaint(row) is None,
        is_writable(memory@) && stored_category(memory@.category.name()) == memory@.category
            ==> row_memory(row) == (MemoryView { user_id: owner, ..memory@ }),
{
    let superseded_by = match memory.superseded_by() {
        Some(id) => Some(id.to_text()),
        None => None,
    };
    let subcategory = match memory.subcategory() {
        Some(s) => Some(s.to_owned()),
        None => None,
    };
    let source = memory.source().copy();
    let row = MemoryRow {
        id: memory.id().to_text(),
        user_id: owner.to_text(),
        content: memory.content().to_owned(),
        category: memory.category().as_str().to_owned(),
        subcategory,
        tags: encode_tags(memory.tags()),
        entities: encode_entities(memory.entities()),
        confidence: memory.confidence(),
        importance: memory.importance(),
        access_count: memory.access_count(),
        source_client: source.client,
        source_session_id: source.session_id,
        created_at: memory.created_at().to_text(),
        updated_at: memory.updated_at().to_text(),
        last_accessed_at: optional_time_text(memory.last_accessed_at()),
        expires_at: optional_time_text(memory.expires_at()),
        superseded_by,
    };
    proof {
        let m = memory@;
        crate::shared::time::instants_are_their_parts(m.created_at, m.created_at);
        crate::shared::time::instants_are_their_parts(m.updated_at, m.updated_at);
        if m.last_accessed_at is Some {
            crate::shared::time::instants_are_their_parts(
                m.last_accessed_at->0,
                m.last_accessed_at->0,
            );
        }
        if m.expires_at is Some {
            crate::shared::time::instants_are_their_parts(m.expires_at->0, m.expires_at->0);
        }
        if is_writable(m) && stored_category(m.category.name()) == m.category {
            let back = row_memory(row);
            assert(back.source == m.source);
            assert(back.last_accessed_at == m.last_accessed_at);
            assert(back.expires_at == m.expires_at);
            assert(back.superseded_by == m.superseded_by);
        }
    }
    row
}

/// The audit entry that a row is, or what is wrong with the row.
pub fn build_audit_entry(
    memory_id: String,
    operation: String,
    actor: String,
    detail: String,
    at: String,
) -> (entry: Result<AuditEntry>)
    ensures
        match entry {
            Ok(e) => uuid_of_text(memory_id@) == Some(e.memory_id.value) && operation_of(operation@)
                == Some(e.operation) && e.actor == actor && e.detail == detail && rfc3339_instant(
                at@,
            ) == Some(e.at.parts()),
            Err(e) => e is Internal && (if uuid_of_text(memory_id@) is None {
                e.text() == "stored audit memory id: "@ + uuid_complaint(memory_id@)
            } else if operation_of(operation@) is None {
                e.text() == "stored audit operation "@ + debug_text(operation@) + " is unknown"@
            } else {
                rfc3339_instant(at@) is None && e.text() == time_complaint(at@)
            }),
        },
{
    let id = match MemoryId::parse(memory_id.as_str()) {
        Ok(id) => id,
        Err(reason) => {
            let mut sentence = "stored audit memory id: ".to_owned();
            sentence.append(reason.as_str());
            return Err(RaError::Internal(sentence));
        },
    };
    let known = match AuditOperation::from_stored(operation.as_str()) {
        Some(known) => known,
        None => {
            let mut sentence = "stored audit operation ".to_owned();
            sentence.append(quote(operation.as_str()).as_str());
            sentence.append(" is unknown");
            return Err(RaError::Internal(sentence));
        },
    };
    match parse_timestamp(at.as_str()) {
        Ok(time) => Ok(AuditEntry { memory_id: id, operation: known, actor, detail, at: time }),
        Err(e) => Err(e),
    }
}

/// The model and the width that a store was built with.
#[derive(Debug)]
pub struct Pin {
    pub model: String,
    pub dimensions: i64,
}

/// The memory store's rules, for one embedding model.
#[derive(Debug)]
pub struct SqliteMemoryRepository {
    pub embedding_model: String,
    pub dimensions: usize,
}

/// What is said where a store was built with another model: vectors of
/// different models are not comparable.
pub open spec fn pin_complaint(pin: Pin, model: Seq<char>, dimensions: usize) -> Seq<char> {
    "this collection was built with embedding model "@ + debug_text(pin.model@) + " ("@
        + signed_decimal(pin.dimensions as int)
        + " dimensions) but the service is configured for "@ + debug_text(model) + " ("@ + decimal(
        dimensions as nat,
    )
        + "). Vectors from different models are not comparable \u{2014} either restore the previous [embeddings] settings or re-index with `recuerdos-ai reindex`."@
}

/// A number in decimal, with its sign where it is negative.
pub open spec fn signed_decimal(n: int) -> Seq<char> {
    if n < 0 {
        "-"@ + decimal((-n) as nat)
    } else {
        decimal(n as nat)
    }
}

fn signed_decimal_text(n: i64) -> (text: String)
    ensures
        text@ == signed_decimal(n as int),
{
    if n < 0 {
        let mut text = "-".to_owned();
        let magnitude: u64 = (-(n as i128)) as u64;
        text.append(decimal_text(magnitude).as_str());
        text
    } else {
        decimal_text(n as u64)
    }
}

/// `statement` writes this line of the audit trail.
pub open spec fn is_audit(
    statement: Statement,
    id: Seq<char>,
    user: UserId,
    memory_id: MemoryId,
    operation: AuditOperation,
    actor: Seq<char>,
    detail: Seq<char>,
    now: Timestamp,
) -> bool {
    statement.is(
        "INSERT INTO memory_audit (id, memory_id, user_id, operation, actor, detail, at) VALUES (?1, ?2, ?3, ?4, ?5, ?6, ?7)"@,
        seq![
            SqlView::Text(id),
            SqlView::Text(memory_id.text()),
            SqlView::Text(user.text()),
            SqlView::Text(operation.name()),
            SqlView::Text(actor),
            SqlView::Text(detail),
            SqlView::Text(now.text()),
        ],
    )
}

/// `statement` creates the user's collection, pinned to a model.
pub open spec fn is_collection(
    statement: Statement,
    id: Seq<char>,
    user: UserId,
    model: Seq<char>,
    dimensions: usize,
    now: Timestamp,
) -> bool {
    statement.is(
        "INSERT INTO collections (id, user_id, name, embedding_model, dimensions, created_at) VALUES (?1, ?2, ?3, ?4, ?5, ?6)"@,
        seq![
            SqlView::Text(id),
            SqlView::Text(user.text()),
            SqlView::Text(DEFAULT_COLLECTION@),
            SqlView::Text(model),
            SqlView::Integer(dimensions as i64),
            SqlView::Text(now.text()),
        ],
    )
}

/// `statement` inserts the memory into a collection of the user's.
pub open spec fn is_insert(
    statement: Statement,
    user: UserId,
    memory: MemoryView,
    collection: Seq<char>,
) -> bool {
    statement.is(
        "INSERT INTO memories (id, user_id, collection_id, content, category, subcategory, tags, entities, confidence, importance, access_count, source_client, source_session_id, created_at, updated_at, last_accessed_at, expires_at, superseded_by) VALUES (?1, ?2, ?3, ?4, ?5, ?6, ?7, ?8, ?9, ?10, ?11, ?12, ?13, ?14, ?15, ?16, ?17, ?18)"@,
        seq![
            SqlView::Text(memory.id.text()),
            SqlView::Text(user.text()),
            SqlView::Text(collection),
            SqlView::Text(memory.content),
            SqlView::Text(memory.category.name()),
            optional_text(memory.subcategory),
            SqlView::Text(json_compact(text_list(memory.tags))),
            SqlView::Text(json_compact(entity_trees(memory.entities))),
            SqlView::Real(memory.confidence),
            SqlView::Real(memory.importance),
            SqlView::Integer(memory.access_count as i64),
            optional_text(memory.source.client),
            optional_text(memory.source.session_id),
            SqlView::Text(memory.created_at.text()),
            SqlView::Text(memory.updated_at.text()),
            optional_text(time_text(memory.last_accessed_at)),
            optional_text(time_text(memory.expires_at)),
            optional_text(id_text(memory.superseded_by)),
        ],
    )
}

pub open spec fn id_text(id: Option<MemoryId>) -> Option<Seq<char>> {
    match id {
        Some(i) => Some(i.text()),
        None => None,
    }
}

/// What a changed memory is recorded as.
pub open spec fn change_of(memory: MemoryView) -> AuditOperation {
    if memory.is_superseded() {
        AuditOperation::Supersede
    } else {
        AuditOperation::Update
    }
}

/// The columns of a memory, in the order in which a row is read.
pub open spec fn columns() -> Seq<char> {
    "id, user_id, content, category, subcategory, tags, entities, confidence, importance, access_count, source_client, source_session_id, created_at, updated_at, last_accessed_at, expires_at, superseded_by"@
}

/// `n` placeholders for a list of values.
pub open spec fn placeholders(n: nat) -> Seq<Seq<char>> {
    Seq::new(n, |i: int| "?"@)
}

pub open spec fn id_params(ids: Seq<MemoryId>) -> Seq<SqlView> {
    ids.map_values(|id: MemoryId| SqlView::Text(id.text()))
}

fn placeholder_list(n: usize) -> (text: String)
    ensures
        text@ == joined(placeholders(n as nat), ","@),
{
    let mut marks: Vec<String> = Vec::new();
    let mut i: usize = 0;
    while i < n
        invariant
            0 <= i <= n,
            marks@.len() == i,
            forall|j: int| 0 <= j < i ==> (#[trigger] marks@[j])@ == "?"@,
        decreases n - i,
    {
        marks.push("?".to_owned());
        i += 1;
    }
    assert(texts(marks@) =~= placeholders(n as nat));
    join(&marks, ",")
}

fn push_ids(params: Vec<SqlValue>, ids: &Vec<MemoryId>) -> (all: Vec<SqlValue>)
    ensures
        param_views(all@) == param_views(params@) + id_params(ids@),
{
    let mut all = params;
    let ghost before = param_views(params@);
    let mut i: usize = 0;
    assert(before + id_params(ids@.take(0)) =~= before);
    while i < ids.len()
        invariant
            0 <= i <= ids@.len(),
            param_views(all@) == before + id_params(ids@.take(i as int)),
        decreases ids@.len() - i,
    {
        let ghost here = all@;
        all.push(SqlValue::Text(ids[i].to_text()));
        proof {
            assert(param_views(all@) =~= param_views(here).push(
                SqlView::Text(ids@[i as int].text()),
            ));
            assert(before + id_params(ids@.take(i + 1)) =~= (before + id_params(
                ids@.take(i as int),
            )).push(SqlView::Text(ids@[i as int].text())));
        }
        i += 1;
    }
    assert(ids@.take(ids@.len() as int) =~= ids@);
    all
}

/// Every statement on rows that are there already is conditioned on their
/// owner.
proof fn lemma_conditions()
    ensures
        holds_text("SELECT id, embedding_model, dimensions FROM collections WHERE user_id = ?1 AND name = ?2"@, owner_clause(0)),
        holds_text("UPDATE memories SET content = ?3, category = ?4, subcategory = ?5, tags = ?6, entities = ?7, confidence = ?8, updated_at = ?9, expires_at = ?10, superseded_by = ?11 WHERE id = ?1 AND user_id = ?2 AND deleted_at IS NULL"@, owner_clause(1)),
        holds_text("UPDATE memories SET superseded_by = ?3, updated_at = ?4 WHERE id = ?1 AND user_id = ?2 AND deleted_at IS NULL"@, owner_clause(1)),
        holds_text("UPDATE memories SET superseded_by = ?3, updated_at = ?4 WHERE id = ?1 AND user_id = ?2 AND deleted_at IS NULL AND superseded_by IS NULL"@, owner_clause(1)),
        holds_text("UPDATE memories SET importance = ?3 WHERE id = ?1 AND user_id = ?2"@, owner_clause(1)),
        holds_text("UPDATE memories SET deleted_at = COALESCE(deleted_at, ?3) WHERE id = ?1 AND user_id = ?2"@, owner_clause(1)),
        holds_text(" FROM memories WHERE id = ?1 AND user_id = ?2 AND deleted_at IS NULL"@, owner_clause(1)),
        holds_text(" FROM memories WHERE user_id = ?1 AND deleted_at IS NULL AND id IN ("@, owner_clause(0)),
        holds_text(" FROM memories WHERE user_id = ?1 AND deleted_at IS NULL "@, owner_clause(0)),
        holds_text("SELECT memory_id, operation, actor, detail, at FROM memory_audit WHERE user_id = ?1 ORDER BY at DESC, rowid DESC LIMIT ?2"@, owner_clause(0)),
        holds_text("UPDATE memories SET last_accessed_at = ?1, access_count = access_count + 1 WHERE user_id = ?2 AND id IN ("@, owner_clause(1)),
{
    owner_clauses_name_their_place();
    assert(holds_text("SELECT id, embedding_model, dimensions FROM collections WHERE user_id = ?1 AND name = ?2"@, owner_clause(0))) by {
        reveal_strlit("SELECT id, embedding_model, dimensions FROM collections WHERE user_id = ?1 AND name = ?2");
        reveal_strlit("user_id = ?1");
        assert("SELECT id, embedding_model, dimensions FROM collections WHERE user_id = ?1 AND name = ?2"@.subrange(62, 74) =~= "user_id = ?1"@);
        lemma_holds_at("SELECT id, embedding_model, dimensions FROM collections WHERE user_id = ?1 AND name = ?2"@, "user_id = ?1"@, 62);
    }
    assert(holds_text("UPDATE memories SET content = ?3, category = ?4, subcategory = ?5, tags = ?6, entities = ?7, confidence = ?8, updated_at = ?9, expires_at = ?10, superseded_by = ?11 WHERE id = ?1 AND user_id = ?2 AND deleted_at IS NULL"@, owner_clause(1))) by {
        reveal_strlit("UPDATE memories SET content = ?3, category = ?4, subcategory = ?5, tags = ?6, entities = ?7, confidence = ?8, updated_at = ?9, expires_at = ?10, superseded_by = ?11 WHERE id = ?1 AND user_id = ?2 AND deleted_at IS NULL");
        reveal_strlit("user_id = ?2");
        assert("UPDATE memories SET content = ?3, category = ?4, subcategory = ?5, tags = ?6, entities = ?7, confidence = ?8, updated_at = ?9, expires_at = ?10, superseded_by = ?11 WHERE id = ?1 AND user_id = ?2 AND deleted_at IS NULL"@.subrange(183, 195) =~= "user_id = ?2"@);
        lemma_holds_at("UPDATE memories SET content = ?3, category = ?4, subcategory = ?5, tags = ?6, entities = ?7, confidence = ?8, updated_at = ?9, expires_at = ?10, superseded_by = ?11 WHERE id = ?1 AND user_id = ?2 AND deleted_at IS NULL"@, "user_id = ?2"@, 183);
    }
    assert(holds_text("UPDATE memories SET superseded_by = ?3, updated_at = ?4 WHERE id = ?1 AND user_id = ?2 AND deleted_at IS NULL"@, owner_clause(1))) by {
        reveal_strlit("UPDATE memories SET superseded_by = ?3, updated_at = ?4 WHERE id = ?1 AND user_id = ?2 AND deleted_at IS NULL");
        reveal_strlit("user_id = ?2");
        assert("UPDATE memories SET superseded_by = ?3, updated_at = ?4 WHERE id = ?1 AND user_id = ?2 AND deleted_at IS NULL"@.subrange(74, 86) =~= "user_id = ?2"@);
        lemma_holds_at("UPDATE memories SET superseded_by = ?3, updated_at = ?4 WHERE id = ?1 AND user_id = ?2 AND deleted_at IS NULL"@, "user_id = ?2"@, 74);
    }
    assert(holds_text("UPDATE memories SET superseded_by = ?3, updated_at = ?4 WHERE id = ?1 AND user_id = ?2 AND deleted_at IS NULL AND superseded_by IS NULL"@, owner_clause(1))) by {
        reveal_strlit("UPDATE memories SET superseded_by = ?3, updated_at = ?4 WHERE id = ?1 AND user_id = ?2 AND deleted_at IS NULL AND superseded_by IS NULL");
        reveal_strlit("user_id = ?2");
        assert("UPDATE memories SET superseded_by = ?3, updated_at = ?4 WHERE id = ?1 AND user_id = ?2 AND deleted_at IS NULL AND superseded_by IS NULL"@.subrange(74, 86) =~= "user_id = ?2"@);
        lemma_holds_at("UPDATE memories SET superseded_by = ?3, updated_at = ?4 WHERE id = ?1 AND user_id = ?2 AND deleted_at IS NULL AND superseded_by IS NULL"@, "user_id = ?2"@, 74);
    }
    assert(holds_text("UPDATE memories SET importance = ?3 WHERE id = ?1 AND user_id = ?2"@, owner_clause(1))) by {
        reveal_strlit("UPDATE memories SET importance = ?3 WHERE id = ?1 AND user_id = ?2");
        reveal_strlit("user_id = ?2");
        assert("UPDATE memories SET importance = ?3 WHERE id = ?1 AND user_id = ?2"@.subrange(54, 66) =~= "user_id = ?2"@);
        lemma_holds_at("UPDATE memories SET importance = ?3 WHERE id = ?1 AND user_id = ?2"@, "user_id = ?2"@, 54);
    }
    assert(holds_text("UPDATE memories SET deleted_at = COALESCE(deleted_at, ?3) WHERE id = ?1 AND user_id = ?2"@, owner_clause(1))) by {
        reveal_strlit("UPDATE memories SET deleted_at = COALESCE(deleted_at, ?3) WHERE id = ?1 AND user_id = ?2");
        reveal_strlit("user_id = ?2");
        assert("UPDATE memories SET deleted_at = COALESCE(deleted_at, ?3) WHERE id = ?1 AND user_id = ?2"@.subrange(76, 88) =~= "user_id = ?2"@);
        lemma_holds_at("UPDATE memories SET deleted_at = COALESCE(deleted_at, ?3) WHERE id = ?1 AND user_id = ?2"@, "user_id = ?2"@, 76);
    }
    assert(holds_text(" FROM memories WHERE id = ?1 AND user_id = ?2 AND deleted_at IS NULL"@, owner_clause(1))) by {
        reveal_strlit(" FROM memories WHERE id = ?1 AND user_id = ?2 AND deleted_at IS NULL");
        reveal_strlit("user_id = ?2");
        assert(" FROM memories WHERE id = ?1 AND user_id = ?2 AND deleted_at IS NULL"@.subrange(33, 45) =~= "user_id = ?2"@);
        lemma_holds_at(" FROM memories WHERE id = ?1 AND user_id = ?2 AND deleted_at IS NULL"@, "user_id = ?2"@, 33);
    }
    assert(holds_text(" FROM memories WHERE user_id = ?1 AND deleted_at IS NULL AND id IN ("@, owner_clause(0))) by {
        reveal_strlit(" FROM memories WHERE user_id = ?1 AND deleted_at IS NULL AND id IN (");
        reveal_strlit("user_id = ?1");
        assert(" FROM memories WHERE user_id = ?1 AND deleted_at IS NULL AND id IN ("@.subrange(21, 33) =~= "user_id = ?1"@);
        lemma_holds_at(" FROM memories WHERE user_id = ?1 AND deleted_at IS NULL AND id IN ("@, "user_id = ?1"@, 21);
    }
    assert(holds_text(" FROM memories WHERE user_id = ?1 AND deleted_at IS NULL "@, owner_clause(0))) by {
        reveal_strlit(" FROM memories WHERE user_id = ?1 AND deleted_at IS NULL ");
        reveal_strlit("user_id = ?1");
        assert(" FROM memories WHERE user_id = ?1 AND deleted_at IS NULL "@.subrange(21, 33) =~= "user_id = ?1"@);
        lemma_holds_at(" FROM memories WHERE user_id = ?1 AND deleted_at IS NULL "@, "user_id = ?1"@, 21);
    }
    assert(holds_text("SELECT memory_id, operation, actor, detail, at FROM memory_audit WHERE user_id = ?1 ORDER BY at DESC, rowid DESC LIMIT ?2"@, owner_clause(0))) by {
        reveal_strlit("SELECT memory_id, operation, actor, detail, at FROM memory_audit WHERE user_id = ?1 ORDER BY at DESC, rowid DESC LIMIT ?2");
        reveal_strlit("user_id = ?1");
        assert("SELECT memory_id, operation, actor, detail, at FROM memory_audit WHERE user_id = ?1 ORDER BY at DESC, rowid DESC LIMIT ?2"@.subrange(71, 83) =~= "user_id = ?1"@);
        lemma_holds_at("SELECT memory_id, operation, actor, detail, at FROM memory_audit WHERE user_id = ?1 ORDER BY at DESC, rowid DESC LIMIT ?2"@, "user_id = ?1"@, 71);
    }
    assert(holds_text("UPDATE memories SET last_accessed_at = ?1, access_count = access_count + 1 WHERE user_id = ?2 AND id IN ("@, owner_clause(1))) by {
        reveal_strlit("UPDATE memories SET last_accessed_at = ?1, access_count = access_count + 1 WHERE user_id = ?2 AND id IN (");
        reveal_strlit("user_id = ?2");
        assert("UPDATE memories SET last_accessed_at = ?1, access_count = access_count + 1 WHERE user_id = ?2 AND id IN ("@.subrange(81, 93) =~= "user_id = ?2"@);
        lemma_holds_at("UPDATE memories SET last_accessed_at = ?1, access_count = access_count + 1 WHERE user_id = ?2 AND id IN ("@, "user_id = ?2"@, 81);
    }
}

impl SqliteMemoryRepository {
    pub fn new(embedding_model: &str, dimensions: usize) -> (repository: SqliteMemoryRepository)
        ensures
            repository.embedding_model@ == embedding_model@,
            repository.dimensions == dimensions,
    {
        SqliteMemoryRepository { embedding_model: embedding_model.to_owned(), dimensions }
    }

    /// Whether a pin is this store's.
    pub open spec fn matches_pin(self, pin: Pin) -> bool {
        pin.model@ == self.embedding_model@ && pin.dimensions as usize == self.dimensions
    }

    /// Reads the caller's collection.
    pub fn find_collection(&self, user: UserId) -> (statement: Statement)
        ensures
            statement.is_scoped_to(user),
            statement.is(
                "SELECT id, embedding_model, dimensions FROM collections WHERE user_id = ?1 AND name = ?2"@,
                seq![SqlView::Text(user.text()), SqlView::Text(DEFAULT_COLLECTION@)],
            ),
    {
        let mut params: Vec<SqlValue> = Vec::new();
        params.push(SqlValue::Text(user.to_text()));
        params.push(text_param(DEFAULT_COLLECTION));
        let statement = Statement {
            sql:
                "SELECT id, embedding_model, dimensions FROM collections WHERE user_id = ?1 AND name = ?2".to_owned(),
            params,
        };
        assert(param_views(statement.params@) =~= seq![
            SqlView::Text(user.text()),
            SqlView::Text(DEFAULT_COLLECTION@),
        ]);
        proof {
            lemma_conditions();
            lemma_scoped(statement, user, 0);
        }
        statement
    }

    /// The guard against a changed embedding model: a mismatch fails loudly
    /// instead of quietly giving nonsense rankings.
    pub fn check_pin(&self, pin: &Pin) -> (checked: Result<()>)
        ensures
            match checked {
                Ok(_) => self.matches_pin(*pin),
                Err(e) => !self.matches_pin(*pin) && e is Validation && e.text() == pin_complaint(
                    *pin,
                    self.embedding_model@,
                    self.dimensions,
                ),
            },
    {
        if same_text(pin.model.as_str(), self.embedding_model.as_str()) && pin.dimensions as usize
            == self.dimensions {
            return Ok(());
        }
        let mut sentence = "this collection was built with embedding model ".to_owned();
        sentence.append(quote(pin.model.as_str()).as_str());
        sentence.append(" (");
        sentence.append(signed_decimal_text(pin.dimensions).as_str());
        sentence.append(" dimensions) but the service is configured for ");
        sentence.append(quote(self.embedding_model.as_str()).as_str());
        sentence.append(" (");
        sentence.append(decimal_text(self.dimensions as u64).as_str());
        sentence.append(
            "). Vectors from different models are not comparable \u{2014} either restore the previous [embeddings] settings or re-index with `recuerdos-ai reindex`.",
        );
        Err(RaError::Validation(sentence))
    }

    /// The collection that the caller has, checked; none, if it is still to
    /// be created.
    pub fn collection_id(&self, existing: Option<(String, Pin)>) -> (id: Result<Option<String>>)
        ensures
            match existing {
                None => id matches Ok(None),
                Some((known, pin)) => match id {
                    Ok(found) => self.matches_pin(pin) && found == Some(known),
                    Err(e) => !self.matches_pin(pin) && e is Validation && e.text()
                        == pin_complaint(pin, self.embedding_model@, self.dimensions),
                },
            },
    {
        match existing {
            None => Ok(None),
            Some((known, pin)) => match self.check_pin(&pin) {
                Ok(_) => Ok(Some(known)),
                Err(e) => Err(e),
            },
        }
    }

    /// Reads the pins of every collection.
    pub fn read_pins(&self) -> (statement: Statement)
        ensures
            statement.is("SELECT embedding_model, dimensions FROM collections"@, Seq::empty()),
    {
        let statement = Statement {
            sql: "SELECT embedding_model, dimensions FROM collections".to_owned(),
            params: Vec::new(),
        };
        assert(param_views(statement.params@) =~= Seq::empty());
        statement
    }

    /// Whether every pin of a store is this one's: the first that is not is
    /// named. A fresh store has none.
    pub fn verify_pin(&self, pins: &Vec<Pin>) -> (checked: Result<()>)
        ensures
            match checked {
                Ok(_) => forall|i: int| 0 <= i < pins@.len() ==> self.matches_pin(#[trigger] pins@[i]),
                Err(e) => e is Validation && exists|i: int|
                    0 <= i < pins@.len() && !self.matches_pin(#[trigger] pins@[i]) && (forall|j: int|
                        0 <= j < i ==> self.matches_pin(#[trigger] pins@[j])) && e.text()
                        == pin_complaint(pins@[i], self.embedding_model@, self.dimensions),
            },
    {
        let mut i: usize = 0;
        while i < pins.len()
            invariant
                0 <= i <= pins@.len(),
                forall|j: int| 0 <= j < i ==> self.matches_pin(#[trigger] pins@[j]),
            decreases pins@.len() - i,
        {
            match self.check_pin(&pins[i]) {
                Ok(_) => {},
                Err(e) => return Err(e),
            }
            i += 1;
        }
        Ok(())
    }

    /// Creates the caller's collection, pinned to this model.
    pub fn create_collection(&self, user: UserId, id: &str, now: Timestamp) -> (statement: Statement)
        ensures
            is_collection(statement, id@, user, self.embedding_model@, self.dimensions, now),
    {
        let mut params: Vec<SqlValue> = Vec::new();
        params.push(text_param(id));
        params.push(SqlValue::Text(user.to_text()));
        params.push(text_param(DEFAULT_COLLECTION));
        params.push(text_param(self.embedding_model.as_str()));
        params.push(SqlValue::Integer(self.dimensions as i64));
        params.push(SqlValue::Text(now.to_text()));
        let statement = Statement {
            sql:
                "INSERT INTO collections (id, user_id, name, embedding_model, dimensions, created_at) VALUES (?1, ?2, ?3, ?4, ?5, ?6)".to_owned(),
            params,
        };
        assert(param_views(statement.params@) =~= seq![
            SqlView::Text(id@),
            SqlView::Text(user.text()),
            SqlView::Text(DEFAULT_COLLECTION@),
            SqlView::Text(self.embedding_model@),
            SqlView::Integer(self.dimensions as i64),
            SqlView::Text(now.text()),
        ]);
        statement
    }

    /// Writes one line of the audit trail.
    pub fn write_audit(
        &self,
        id: &str,
        user: UserId,
        memory_id: MemoryId,
        operation: AuditOperation,
        actor: &str,
        detail: &str,
        now: Timestamp,
    ) -> (statement: Statement)
        ensures
            is_audit(statement, id@, user, memory_id, operation, actor@, detail@, now),
    {
        let mut params: Vec<SqlValue> = Vec::new();
        params.push(text_param(id));
        params.push(SqlValue::Text(memory_id.to_text()));
        params.push(SqlValue::Text(user.to_text()));
        params.push(text_param(operation.as_str()));
        params.push(text_param(actor));
        params.push(text_param(detail));
        params.push(SqlValue::Text(now.to_text()));
        let statement = Statement {
            sql:
                "INSERT INTO memory_audit (id, memory_id, user_id, operation, actor, detail, at) VALUES (?1, ?2, ?3, ?4, ?5, ?6, ?7)".to_owned(),
            params,
        };
        assert(param_views(statement.params@) =~= seq![
            SqlView::Text(id@),
            SqlView::Text(memory_id.text()),
            SqlView::Text(user.text()),
            SqlView::Text(operation.name()),
            SqlView::Text(actor@),
            SqlView::Text(detail@),
            SqlView::Text(now.text()),
        ]);
        statement
    }

    fn insert_row(&self, user: UserId, memory: &Memory, collection_id: &str) -> (statement: Statement)
        ensures
            is_insert(statement, user, memory@, collection_id@),
    {
        let row = memory_row(user, memory);
        let mut params: Vec<SqlValue> = Vec::new();
        params.push(text_param(row.id.as_str()));
        params.push(text_param(row.user_id.as_str()));
        params.push(text_param(collection_id));
        params.push(text_param(row.content.as_str()));
        params.push(text_param(row.category.as_str()));
        params.push(optional_param(&row.subcategory));
        params.push(text_param(row.tags.as_str()));
        params.push(text_param(row.entities.as_str()));
        params.push(SqlValue::Real(row.confidence));
        params.push(SqlValue::Real(row.importance));
        params.push(SqlValue::Integer(row.access_count as i64));
        params.push(optional_param(&row.source_client));
        params.push(optional_param(&row.source_session_id));
        params.push(text_param(row.created_at.as_str()));
        params.push(text_param(row.updated_at.as_str()));
        params.push(optional_param(&row.last_accessed_at));
        params.push(optional_param(&row.expires_at));
        params.push(optional_param(&row.superseded_by));
        let statement = Statement {
            sql:
                "INSERT INTO memories (id, user_id, collection_id, content, category, subcategory, tags, entities, confidence, importance, access_count, source_client, source_session_id, created_at, updated_at, last_accessed_at, expires_at, superseded_by) VALUES (?1, ?2, ?3, ?4, ?5, ?6, ?7, ?8, ?9, ?10, ?11, ?12, ?13, ?14, ?15, ?16, ?17, ?18)".to_owned(),
            params,
        };
        assert(param_views(statement.params@) =~= seq![
            SqlView::Text(memory@.id.text()),
            SqlView::Text(user.text()),
            SqlView::Text(collection_id@),
            SqlView::Text(memory@.content),
            SqlView::Text(memory@.category.name()),
            optional_text(memory@.subcategory),
            SqlView::Text(json_compact(text_list(memory@.tags))),
            SqlView::Text(json_compact(entity_trees(memory@.entities))),
            SqlView::Real(memory@.confidence),
            SqlView::Real(memory@.importance),
            SqlView::Integer(memory@.access_count as i64),
            optional_text(memory@.source.client),
            optional_text(memory@.source.session_id),
            SqlView::Text(memory@.created_at.text()),
            SqlView::Text(memory@.updated_at.text()),
            optional_text(time_text(memory@.last_accessed_at)),
            optional_text(time_text(memory@.expires_at)),
            optional_text(id_text(memory@.superseded_by)),
        ]);
        statement
    }

    /// What inserting a memory takes, given the collection that the caller
    /// has: the collection is created where there is none, and the audit
    /// trail gets a line. The memory is filed under the caller, whatever it
    /// says itself. Nothing is written to a collection of another model.
    pub fn insert(
        &self,
        user: UserId,
        memory: &Memory,
        actor: &str,
        existing: Option<(String, Pin)>,
        fresh_collection: &str,
        audit_id: &str,
        now: Timestamp,
    ) -> (statements: Result<Vec<Statement>>)
        ensures
            match existing {
                Some((known, pin)) => match statements {
                    Ok(list) => self.matches_pin(pin) && list@.len() == 2 && is_insert(
                        list@[0],
                        user,
                        memory@,
                        known@,
                    ) && is_audit(
                        list@[1],
                        audit_id@,
                        user,
                        memory@.id,
                        AuditOperation::Add,
                        actor@,
                        memory@.category.name(),
                        now,
                    ),
                    Err(e) => !self.matches_pin(pin) && e is Validation && e.text()
                        == pin_complaint(pin, self.embedding_model@, self.dimensions),
                },
                None => statements matches Ok(list) && list@.len() == 3 && is_collection(
                    list@[0],
                    fresh_collection@,
                    user,
                    self.embedding_model@,
                    self.dimensions,
                    now,
                ) && is_insert(list@[1], user, memory@, fresh_collection@) && is_audit(
                    list@[2],
                    audit_id@,
                    user,
                    memory@.id,
                    AuditOperation::Add,
                    actor@,
                    memory@.category.name(),
                    now,
                ),
            },
    {
        let mut list: Vec<Statement> = Vec::new();
        let collection = match self.collection_id(existing) {
            Ok(Some(known)) => known,
            Ok(None) => {
                list.push(self.create_collection(user, fresh_collection, now));
                fresh_collection.to_owned()
            },
            Err(e) => return Err(e),
        };
        list.push(self.insert_row(user, memory, collection.as_str()));
        list.push(
            self.write_audit(
                audit_id,
                user,
                memory.id(),
                AuditOperation::Add,
                actor,
                memory.category().as_str(),
                now,
            ),
        );
        Ok(list)
    }

    /// Rewrites a memory of the caller's that is not deleted.
    pub fn update(&self, user: UserId, memory: &Memory) -> (statement: Statement)
        ensures
            statement.is_scoped_to(user),
            statement.is(
                "UPDATE memories SET content = ?3, category = ?4, subcategory = ?5, tags = ?6, entities = ?7, confidence = ?8, updated_at = ?9, expires_at = ?10, superseded_by = ?11 WHERE id = ?1 AND user_id = ?2 AND deleted_at IS NULL"@,
                seq![
                    SqlView::Text(memory@.id.text()),
                    SqlView::Text(user.text()),
                    SqlView::Text(memory@.content),
                    SqlView::Text(memory@.category.name()),
                    optional_text(memory@.subcategory),
                    SqlView::Text(json_compact(text_list(memory@.tags))),
                    SqlView::Text(json_compact(entity_trees(memory@.entities))),
                    SqlView::Real(memory@.confidence),
                    SqlView::Text(memory@.updated_at.text()),
                    optional_text(time_text(memory@.expires_at)),
                    optional_text(id_text(memory@.superseded_by)),
                ],
            ),
    {
        let row = memory_row(user, memory);
        let mut params: Vec<SqlValue> = Vec::new();
        params.push(text_param(row.id.as_str()));
        params.push(text_param(row.user_id.as_str()));
        params.push(text_param(row.content.as_str()));
        params.push(text_param(row.category.as_str()));
        params.push(optional_param(&row.subcategory));
        params.push(text_param(row.tags.as_str()));
        params.push(text_param(row.entities.as_str()));
        params.push(SqlValue::Real(row.confidence));
        params.push(text_param(row.updated_at.as_str()));
        params.push(optional_param(&row.expires_at));
        params.push(optional_param(&row.superseded_by));
        let statement = Statement {
            sql:
                "UPDATE memories SET content = ?3, category = ?4, subcategory = ?5, tags = ?6, entities = ?7, confidence = ?8, updated_at = ?9, expires_at = ?10, superseded_by = ?11 WHERE id = ?1 AND user_id = ?2 AND deleted_at IS NULL".to_owned(),
            params,
        };
        assert(param_views(statement.params@) =~= seq![
            SqlView::Text(memory@.id.text()),
            SqlView::Text(user.text()),
            SqlView::Text(memory@.content),
            SqlView::Text(memory@.category.name()),
            optional_text(memory@.subcategory),
            SqlView::Text(json_compact(text_list(memory@.tags))),
            SqlView::Text(json_compact(entity_trees(memory@.entities))),
            SqlView::Real(memory@.confidence),
            SqlView::Text(memory@.updated_at.text()),
            optional_text(time_text(memory@.expires_at)),
            optional_text(id_text(memory@.superseded_by)),
        ]);
        proof {
            lemma_conditions();
            lemma_scoped(statement, user, 1);
        }
        statement
    }

    /// What follows an update: the line of the audit trail. A memory that no
    /// row was changed for is not found, be it missing or another user's.
    pub fn updated(
        &self,
        user: UserId,
        memory: &Memory,
        actor: &str,
        affected: usize,
        audit_id: &str,
        now: Timestamp,
    ) -> (audit: Result<Statement>)
        ensures
            match audit {
                Ok(s) => affected > 0 && is_audit(
                    s,
                    audit_id@,
                    user,
                    memory@.id,
                    change_of(memory@),
                    actor@,
                    ""@,
                    now,
                ),
                Err(e) => affected == 0 && e is NotFound && e.text() == not_found_text(memory@.id),
            },
    {
        if affected == 0 {
            return Err(not_found(memory.id()));
        }
        let operation = if memory.is_superseded() {
            AuditOperation::Supersede
        } else {
            AuditOperation::Update
        };
        Ok(self.write_audit(audit_id, user, memory.id(), operation, actor, "", now))
    }

    /// Points a memory of the caller's at the one that replaces it.
    pub fn supersede(&self, user: UserId, id: MemoryId, by: MemoryId, now: Timestamp) -> (statement:
        Statement)
        ensures
            statement.is_scoped_to(user),
            statement.is(
                "UPDATE memories SET superseded_by = ?3, updated_at = ?4 WHERE id = ?1 AND user_id = ?2 AND deleted_at IS NULL"@,
                seq![
                    SqlView::Text(id.text()),
                    SqlView::Text(user.text()),
                    SqlView::Text(by.text()),
                    SqlView::Text(now.text()),
                ],
            ),
    {
        let statement = self.retirement(
            "UPDATE memories SET superseded_by = ?3, updated_at = ?4 WHERE id = ?1 AND user_id = ?2 AND deleted_at IS NULL",
            user,
            id,
            by,
            now,
        );
        proof {
            lemma_conditions();
            lemma_scoped(statement, user, 1);
        }
        statement
    }

    fn retirement(&self, sql: &str, user: UserId, id: MemoryId, by: MemoryId, now: Timestamp) -> (
    statement: Statement)
        ensures
            statement.is(
                sql@,
                seq![
                    SqlView::Text(id.text()),
                    SqlView::Text(user.text()),
                    SqlView::Text(by.text()),
                    SqlView::Text(now.text()),
                ],
            ),
    {
        let mut params: Vec<SqlValue> = Vec::new();
        params.push(SqlValue::Text(id.to_text()));
        params.push(SqlValue::Text(user.to_text()));
        params.push(SqlValue::Text(by.to_text()));
        params.push(SqlValue::Text(now.to_text()));
        let statement = Statement { sql: sql.to_owned(), params };
        assert(param_views(statement.params@) =~= seq![
            SqlView::Text(id.text()),
            SqlView::Text(user.text()),
            SqlView::Text(by.text()),
            SqlView::Text(now.text()),
        ]);
        statement
    }

    /// What follows a supersession: the line of the audit trail, or that
    /// there was nothing to supersede.
    pub fn superseded(
        &self,
        user: UserId,
        id: MemoryId,
        actor: &str,
        detail: &str,
        affected: usize,
        audit_id: &str,
        now: Timestamp,
    ) -> (audit: Result<Statement>)
        ensures
            match audit {
                Ok(s) => affected > 0 && is_audit(
                    s,
                    audit_id@,
                    user,
                    id,
                    AuditOperation::Supersede,
                    actor@,
                    detail@,
                    now,
                ),
                Err(e) => affected == 0 && e is NotFound && e.text() == not_found_text(id),
            },
    {
        if affected == 0 {
            return Err(not_found(id));
        }
        Ok(self.write_audit(audit_id, user, id, AuditOperation::Supersede, actor, detail, now))
    }

    /// Retires a member of a cluster that is merged into another memory. One
    /// that is retired already, or another user's, is left as it is: a cluster
    /// is a snapshot, and history is not rewritten.
    pub fn merge(&self, user: UserId, id: MemoryId, replacement: MemoryId, now: Timestamp) -> (
    statement: Statement)
        ensures
            statement.is_scoped_to(user),
            statement.is(
                "UPDATE memories SET superseded_by = ?3, updated_at = ?4 WHERE id = ?1 AND user_id = ?2 AND deleted_at IS NULL AND superseded_by IS NULL"@,
                seq![
                    SqlView::Text(id.text()),
                    SqlView::Text(user.text()),
                    SqlView::Text(replacement.text()),
                    SqlView::Text(now.text()),
                ],
            ),
    {
        let statement = self.retirement(
            "UPDATE memories SET superseded_by = ?3, updated_at = ?4 WHERE id = ?1 AND user_id = ?2 AND deleted_at IS NULL AND superseded_by IS NULL",
            user,
            id,
            replacement,
            now,
        );
        proof {
            lemma_conditions();
            lemma_scoped(statement, user, 1);
        }
        statement
    }

    /// What follows the retirement of a member: the line of the audit trail,
    /// where it was retired.
    pub fn merged(
        &self,
        user: UserId,
        id: MemoryId,
        actor: &str,
        detail: &str,
        affected: usize,
        audit_id: &str,
        now: Timestamp,
    ) -> (audit: Option<Statement>)
        ensures
            match audit {
                Some(s) => affected > 0 && is_audit(
                    s,
                    audit_id@,
                    user,
                    id,
                    AuditOperation::Merge,
                    actor@,
                    detail@,
                    now,
                ),
                None => affected == 0,
            },
    {
        if affected == 0 {
            return None;
        }
        Some(self.write_audit(audit_id, user, id, AuditOperation::Merge, actor, detail, now))
    }

    /// Sets how important a memory of the caller's is. It is a derived value,
    /// so the audit trail says nothing of it.
    pub fn set_importance(&self, user: UserId, id: MemoryId, importance: u32) -> (statement:
        Statement)
        ensures
            statement.is_scoped_to(user),
            statement.is(
                "UPDATE memories SET importance = ?3 WHERE id = ?1 AND user_id = ?2"@,
                seq![
                    SqlView::Text(id.text()),
                    SqlView::Text(user.text()),
                    SqlView::Real(importance),
                ],
            ),
    {
        let mut params: Vec<SqlValue> = Vec::new();
        params.push(SqlValue::Text(id.to_text()));
        params.push(SqlValue::Text(user.to_text()));
        params.push(SqlValue::Real(importance));
        let statement = Statement {
            sql: "UPDATE memories SET importance = ?3 WHERE id = ?1 AND user_id = ?2".to_owned(),
            params,
        };
        assert(param_views(statement.params@) =~= seq![
            SqlView::Text(id.text()),
            SqlView::Text(user.text()),
            SqlView::Real(importance),
        ]);
        proof {
            lemma_conditions();
            lemma_scoped(statement, user, 1);
        }
        statement
    }

    /// Marks a memory of the caller's as deleted. Deleting twice keeps the
    /// first time.
    pub fn delete(&self, user: UserId, id: MemoryId, now: Timestamp) -> (statement: Statement)
        ensures
            statement.is_scoped_to(user),
            statement.is(
                "UPDATE memories SET deleted_at = COALESCE(deleted_at, ?3) WHERE id = ?1 AND user_id = ?2"@,
                seq![
                    SqlView::Text(id.text()),
                    SqlView::Text(user.text()),
                    SqlView::Text(now.text()),
                ],
            ),
    {
        let mut params: Vec<SqlValue> = Vec::new();
        params.push(SqlValue::Text(id.to_text()));
        params.push(SqlValue::Text(user.to_text()));
        params.push(SqlValue::Text(now.to_text()));
        let statement = Statement {
            sql:
                "UPDATE memories SET deleted_at = COALESCE(deleted_at, ?3) WHERE id = ?1 AND user_id = ?2".to_owned(),
            params,
        };
        assert(param_views(statement.params@) =~= seq![
            SqlView::Text(id.text()),
            SqlView::Text(user.text()),
            SqlView::Text(now.text()),
        ]);
        proof {
            lemma_conditions();
            lemma_scoped(statement, user, 1);
        }
        statement
    }

    /// What follows a deletion: the line of the audit trail, or that there was
    /// nothing to delete.
    pub fn deleted(
        &self,
        user: UserId,
        id: MemoryId,
        actor: &str,
        detail: &str,
        affected: usize,
        audit_id: &str,
        now: Timestamp,
    ) -> (audit: Result<Statement>)
        ensures
            match audit {
                Ok(s) => affected > 0 && is_audit(
                    s,
                    audit_id@,
                    user,
                    id,
                    AuditOperation::Delete,
                    actor@,
                    detail@,
                    now,
                ),
                Err(e) => affected == 0 && e is NotFound && e.text() == not_found_text(id),
            },
    {
        if affected == 0 {
            return Err(not_found(id));
        }
        Ok(self.write_audit(audit_id, user, id, AuditOperation::Delete, actor, detail, now))
    }

    /// Reads a memory of the caller's that is not deleted.
    pub fn find(&self, user: UserId, id: MemoryId) -> (statement: Statement)
        ensures
            statement.is_scoped_to(user),
            statement.is(
                "SELECT "@ + columns()
                    + " FROM memories WHERE id = ?1 AND user_id = ?2 AND deleted_at IS NULL"@,
                seq![SqlView::Text(id.text()), SqlView::Text(user.text())],
            ),
    {
        let mut params: Vec<SqlValue> = Vec::new();
        params.push(SqlValue::Text(id.to_text()));
        params.push(SqlValue::Text(user.to_text()));
        let mut sql = select_columns();
        sql.append(" FROM memories WHERE id = ?1 AND user_id = ?2 AND deleted_at IS NULL");
        let statement = Statement { sql, params };
        assert(param_views(statement.params@) =~= seq![
            SqlView::Text(id.text()),
            SqlView::Text(user.text()),
        ]);
        proof {
            let tail = " FROM memories WHERE id = ?1 AND user_id = ?2 AND deleted_at IS NULL"@;
            lemma_conditions();
            longer_texts_hold_as_much("SELECT "@ + columns(), tail, Seq::empty(), owner_clause(1));
            assert(statement.sql@ =~= "SELECT "@ + columns() + tail + Seq::empty());
            lemma_scoped(statement, user, 1);
        }
        statement
    }

    /// Reads those of the memories that are the caller's and not deleted;
    /// nothing to read, no statement.
    pub fn find_many(&self, user: UserId, ids: &Vec<MemoryId>) -> (statement: Option<Statement>)
        ensures
            match statement {
                None => ids@.len() == 0,
                Some(s) => ids@.len() > 0 && s.is_scoped_to(user) && s.is(
                    "SELECT "@ + columns()
                        + " FROM memories WHERE user_id = ?1 AND deleted_at IS NULL AND id IN ("@
                        + joined(placeholders(ids@.len()), ","@) + ")"@,
                    seq![SqlView::Text(user.text())] + id_params(ids@),
                ),
            },
    {
        if ids.len() == 0 {
            return None;
        }
        let mut params: Vec<SqlValue> = Vec::new();
        params.push(SqlValue::Text(user.to_text()));
        assert(param_views(params@) =~= seq![SqlView::Text(user.text())]);
        let mut sql = select_columns();
        sql.append(" FROM memories WHERE user_id = ?1 AND deleted_at IS NULL AND id IN (");
        sql.append(placeholder_list(ids.len()).as_str());
        sql.append(")");
        let statement = Statement { sql, params: push_ids(params, ids) };
        proof {
            let tail = " FROM memories WHERE user_id = ?1 AND deleted_at IS NULL AND id IN ("@;
            let rest = joined(placeholders(ids@.len()), ","@) + ")"@;
            lemma_conditions();
            longer_texts_hold_as_much("SELECT "@ + columns(), tail, rest, owner_clause(0));
            assert(statement.sql@ =~= "SELECT "@ + columns() + tail + rest);
            assert(param_views(statement.params@)[0] == SqlView::Text(user.text()));
            lemma_scoped(statement, user, 0);
        }
        Some(statement)
    }

    /// Reads all of the caller's memories that are not deleted, newest first.
    pub fn list(&self, user: UserId, include_inactive: bool) -> (statement: Statement)
        ensures
            statement.is_scoped_to(user),
            statement.is(
                "SELECT "@ + columns() + " FROM memories WHERE user_id = ?1 AND deleted_at IS NULL "@
                    + (if include_inactive {
                    ""@
                } else {
                    "AND superseded_by IS NULL"@
                }) + " ORDER BY created_at DESC"@,
                seq![SqlView::Text(user.text())],
            ),
    {
        let mut params: Vec<SqlValue> = Vec::new();
        params.push(SqlValue::Text(user.to_text()));
        let mut sql = select_columns();
        sql.append(" FROM memories WHERE user_id = ?1 AND deleted_at IS NULL ");
        if include_inactive {
            sql.append("");
        } else {
            sql.append("AND superseded_by IS NULL");
        }
        sql.append(" ORDER BY created_at DESC");
        let statement = Statement { sql, params };
        assert(param_views(statement.params@) =~= seq![SqlView::Text(user.text())]);
        proof {
            let tail = " FROM memories WHERE user_id = ?1 AND deleted_at IS NULL "@;
            let rest = (if include_inactive {
                ""@
            } else {
                "AND superseded_by IS NULL"@
            }) + " ORDER BY created_at DESC"@;
            lemma_conditions();
            longer_texts_hold_as_much("SELECT "@ + columns(), tail, rest, owner_clause(0));
            assert(statement.sql@ =~= "SELECT "@ + columns() + tail + rest);
            lemma_scoped(statement, user, 0);
        }
        statement
    }

    /// Reads the newest lines of the caller's audit trail.
    pub fn audit_trail(&self, user: UserId, limit: usize) -> (statement: Statement)
        ensures
            statement.is_scoped_to(user),
            statement.is(
                "SELECT memory_id, operation, actor, detail, at FROM memory_audit WHERE user_id = ?1 ORDER BY at DESC, rowid DESC LIMIT ?2"@,
                seq![SqlView::Text(user.text()), SqlView::Integer(limit as i64)],
            ),
    {
        let mut params: Vec<SqlValue> = Vec::new();
        params.push(SqlValue::Text(user.to_text()));
        params.push(SqlValue::Integer(limit as i64));
        let statement = Statement {
            sql:
                "SELECT memory_id, operation, actor, detail, at FROM memory_audit WHERE user_id = ?1 ORDER BY at DESC, rowid DESC LIMIT ?2".to_owned(),
            params,
        };
        assert(param_views(statement.params@) =~= seq![
            SqlView::Text(user.text()),
            SqlView::Integer(limit as i64),
        ]);
        proof {
            lemma_conditions();
            lemma_scoped(statement, user, 0);
        }
        statement
    }

    /// Records that those of the memories that are the caller's were read,
    /// and counts it; nothing read, no statement.
    pub fn touch_accessed(&self, user: UserId, ids: &Vec<MemoryId>, now: Timestamp) -> (statement:
        Option<Statement>)
        ensures
            match statement {
                None => ids@.len() == 0,
                Some(s) => ids@.len() > 0 && s.is_scoped_to(user) && s.is(
                    "UPDATE memories SET last_accessed_at = ?1, access_count = access_count + 1 WHERE user_id = ?2 AND id IN ("@
                        + joined(placeholders(ids@.len()), ","@) + ")"@,
                    seq![SqlView::Text(now.text()), SqlView::Text(user.text())] + id_params(ids@),
                ),
            },
    {
        if ids.len() == 0 {
            return None;
        }
        let mut params: Vec<SqlValue> = Vec::new();
        params.push(SqlValue::Text(now.to_text()));
        params.push(SqlValue::Text(user.to_text()));
        assert(param_views(params@) =~= seq![
            SqlView::Text(now.text()),
            SqlView::Text(user.text()),
        ]);
        let mut sql =
            "UPDATE memories SET last_accessed_at = ?1, access_count = access_count + 1 WHERE user_id = ?2 AND id IN (".to_owned();
        sql.append(placeholder_list(ids.len()).as_str());
        sql.append(")");
        let statement = Statement { sql, params: push_ids(params, ids) };
        proof {
            let head =
                "UPDATE memories SET last_accessed_at = ?1, access_count = access_count + 1 WHERE user_id = ?2 AND id IN ("@;
            let rest = joined(placeholders(ids@.len()), ","@) + ")"@;
            lemma_conditions();
            longer_texts_hold_as_much(Seq::empty(), head, rest, owner_clause(1));
            assert(statement.sql@ =~= Seq::<char>::empty() + head + rest);
            assert(param_views(statement.params@)[1] == SqlView::Text(user.text()));
            lemma_scoped(statement, user, 1);
        }
        Some(statement)
    }
}

fn select_columns() -> (sql: String)
    ensures
        sql@ == "SELECT "@ + columns(),
{
    let mut sql = "SELECT ".to_owned();
    sql.append(
        "id, user_id, content, category, subcategory, tags, entities, confidence, importance, access_count, source_client, source_session_id, created_at, updated_at, last_accessed_at, expires_at, superseded_by",
    );
    sql
}

/// The entities of a column are those of its documents that name both parts,
/// in order.
pub proof fn entities_are_what_names_both_parts(trees: Seq<JsonTree>)
    ensures
        entities_of(trees) == trees.filter(
            |t: JsonTree|
                text_in(field_of(t, "name"@)) is Some && text_in(field_of(t, "kind"@)) is Some,
        ).map_values(
            |t: JsonTree|
                EntityView {
                    name: text_in(field_of(t, "name"@))->0,
                    kind: text_in(field_of(t, "kind"@))->0,
                },
        ),
    decreases trees.len(),
{
    reveal(Seq::filter);
    if trees.len() > 0 {
        entities_are_what_names_both_parts(trees.drop_last());
    }
}

/// A row is a memory where its identifiers and its points in time, as far as it
/// has them, are well-formed; nothing else keeps it from being one.
pub proof fn rows_are_memories_by_their_ids_and_times(row: MemoryRow)
    ensures
        row_complaint(row) is None <==> {
            &&& uuid_of_text(row.id@) is Some
            &&& uuid_of_text(row.user_id@) is Some
            &&& rfc3339_instant(row.created_at@) is Some
            &&& rfc3339_instant(row.updated_at@) is Some
            &&& row.last_accessed_at is None || rfc3339_instant(row.last_accessed_at->0@) is Some
            &&& row.expires_at is None || rfc3339_instant(row.expires_at->0@) is Some
            &&& row.superseded_by is None || uuid_of_text(row.superseded_by->0@) is Some
        },
{
}

/// What is inserted is what the row of the memory holds, column by column, with
/// the collection behind the owner.
pub proof fn inserts_hold_what_the_row_holds(
    statement: Statement,
    row: MemoryRow,
    memory: MemoryView,
    user: UserId,
    collection: Seq<char>,
)
    requires
        is_insert(statement, user, memory, collection),
        is_row_of(row, memory, user),
    ensures
        ({
            let values = param_views(statement.params@);
            &&& values.len() == 18
            &&& values[0] == SqlView::Text(row.id@)
            &&& values[1] == SqlView::Text(row.user_id@)
            &&& values[2] == SqlView::Text(collection)
            &&& values[3] == SqlView::Text(row.content@)
            &&& values[4] == SqlView::Text(row.category@)
            &&& values[5] == optional_text(option_text(row.subcategory))
            &&& values[6] == SqlView::Text(row.tags@)
            &&& values[7] == SqlView::Text(row.entities@)
            &&& values[8] == SqlView::Real(row.confidence)
            &&& values[9] == SqlView::Real(row.importance)
            &&& values[10] == SqlView::Integer(row.access_count as i64)
            &&& values[11] == optional_text(option_text(row.source_client))
            &&& values[12] == optional_text(option_text(row.source_session_id))
            &&& values[13] == SqlView::Text(row.created_at@)
            &&& values[14] == SqlView::Text(row.updated_at@)
            &&& values[15] == optional_text(option_text(row.last_accessed_at))
            &&& values[16] == optional_text(option_text(row.expires_at))
            &&& values[17] == optional_text(option_text(row.superseded_by))
        }),
{
}

/// A change is recorded as what it was: replaced, where the memory names its
/// replacement, and changed, where it does not.
pub proof fn changes_are_recorded_as_what_they_are(memory: MemoryView)
    ensures
        memory.superseded_by is Some ==> change_of(memory) is Supersede,
        memory.superseded_by is None ==> change_of(memory) is Update,
{
}

/// A store is another's where the model or the width differs, whatever else
/// agrees.
pub proof fn stores_go_by_model_and_width(store: SqliteMemoryRepository, pin: Pin)
    ensures
        pin.model@ != store.embedding_model@ ==> !store.matches_pin(pin),
        pin.dimensions as usize != store.dimensions ==> !store.matches_pin(pin),
        pin.model@ == store.embedding_model@ && pin.dimensions as usize == store.dimensions
            ==> store.matches_pin(pin),
{
}

/// Of a list of identifiers each is bound, in order, and has its mark.
pub proof fn every_id_is_bound(ids: Seq<MemoryId>, i: int)
    requires
        0 <= i < ids.len(),
    ensures
        id_params(ids).len() == ids.len(),
        id_params(ids)[i] == SqlView::Text(ids[i].text()),
        placeholders(ids.len()).len() == ids.len(),
        placeholders(ids.len())[i] == "?"@,
{
}

/// What is written to the audit trail tells whose memory it was, what was done
/// to it, by whom, and when.
pub proof fn audit_lines_tell_what_was_done(
    statement: Statement,
    id: Seq<char>,
    user: UserId,
    memory_id: MemoryId,
    operation: AuditOperation,
    actor: Seq<char>,
    detail: Seq<char>,
    now: Timestamp,
)
    requires
        is_audit(statement, id, user, memory_id, operation, actor, detail, now),
    ensures
        ({
            let values = param_views(statement.params@);
            &&& values.len() == 7
            &&& values[0] == SqlView::Text(id)
            &&& values[1] == SqlView::Text(memory_id.text())
            &&& values[2] == SqlView::Text(user.text())
            &&& values[3] == SqlView::Text(operation.name())
            &&& values[4] == SqlView::Text(actor)
            &&& values[5] == SqlView::Text(detail)
            &&& values[6] == SqlView::Text(now.text())
        }),
{
}

/// A collection is created for its user, pinned to the model and the width.
pub proof fn collections_are_pinned(
    statement: Statement,
    id: Seq<char>,
    user: UserId,
    model: Seq<char>,
    dimensions: usize,
    now: Timestamp,
)
    requires
        is_collection(statement, id, user, model, dimensions, now),
    ensures
        ({
            let values = param_views(statement.params@);
            &&& values.len() == 6
            &&& values[0] == SqlView::Text(id)
            &&& values[1] == SqlView::Text(user.text())
            &&& values[3] == SqlView::Text(model)
            &&& values[4] == SqlView::Integer(dimensions as i64)
            &&& values[5] == SqlView::Text(now.text())
        }),
{
}

} // verus!
