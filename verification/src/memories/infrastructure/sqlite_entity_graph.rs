//! The entity graph of one user: which rows a memory files, and which edges a
//! new assertion closes.
//!
//! Every list of edges here is one user's own: the store hands over the rows
//! of the user that asks and no others. What is to be done to the rows is
//! answered as changes, each of which the store makes with one statement.
use super::graph_walk::{stored_link, LinkView, StampView};
use super::sqlite_memory_repository::time_text;
use crate::memories::domain::entity_graph::{
    canonical_predicate, normalise_predicate, relation_views, Relation, RelationView,
};
use crate::memories::domain::entity_key::{
    canonical, distinct, distinct_keys, holds_key, key_views, EntityKey,
};
use crate::memories::domain::memory::{entity_views, option_text, Entity, EntityView};
use crate::shared::ids::MemoryId;
use crate::shared::time::Timestamp;
use crate::text::{trim, trimmed};
use vstd::prelude::*;

verus! {

/// An entity as a memory files it, under its key.
#[derive(Debug)]
pub struct EntityRow {
    pub key: EntityKey,
    pub name: String,
    pub kind: String,
}

pub struct EntityRowView {
    pub key: Seq<char>,
    pub name: Seq<char>,
    pub kind: Seq<char>,
}

impl View for EntityRow {
    type V = EntityRowView;

    open spec fn view(&self) -> EntityRowView {
        EntityRowView { key: self.key@, name: self.name@, kind: self.kind@ }
    }
}

pub open spec fn row_views(rows: Seq<EntityRow>) -> Seq<EntityRowView> {
    rows.map_values(|r: EntityRow| r@)
}

/// A relation as a memory files it, with the interval over which it holds.
#[derive(Debug)]
pub struct Edge {
    pub memory_id: MemoryId,
    pub subject: EntityKey,
    pub predicate: String,
    pub object: EntityKey,
    pub subject_name: String,
    pub object_name: String,
    pub valid_from: Timestamp,
    pub invalid_at: Option<Timestamp>,
    pub invalidated_by: Option<MemoryId>,
}

#[verifier::ext_equal]
pub struct EdgeView {
    pub memory_id: MemoryId,
    pub subject: Seq<char>,
    pub predicate: Seq<char>,
    pub object: Seq<char>,
    pub subject_name: Seq<char>,
    pub object_name: Seq<char>,
    pub valid_from: Timestamp,
    pub invalid_at: Option<Timestamp>,
    pub invalidated_by: Option<MemoryId>,
}

impl View for Edge {
    type V = EdgeView;

    open spec fn view(&self) -> EdgeView {
        EdgeView {
            memory_id: self.memory_id,
            subject: self.subject@,
            predicate: self.predicate@,
            object: self.object@,
            subject_name: self.subject_name@,
            object_name: self.object_name@,
            valid_from: self.valid_from,
            invalid_at: self.invalid_at,
            invalidated_by: self.invalidated_by,
        }
    }
}

pub open spec fn edge_views(edges: Seq<Edge>) -> Seq<EdgeView> {
    edges.map_values(|e: Edge| e@)
}

impl EdgeView {
    /// Whether the edge holds at a point in time.
    pub open spec fn live_at(self, at: Timestamp) -> bool {
        !at.before(self.valid_from) && (self.invalid_at is None || at.before(self.invalid_at->0))
    }

    /// The edge as a walk crosses it.
    pub open spec fn link(self) -> LinkView {
        LinkView {
            memory_id: self.memory_id.text(),
            subject: self.subject,
            object: self.object,
            valid_from: StampView::At(self.valid_from),
            invalid_at: match self.invalid_at {
                Some(end) => Some(StampView::At(end)),
                None => None,
            },
        }
    }

    /// The edge with its interval closed.
    pub open spec fn closed_by(self, at: Timestamp, by: MemoryId) -> EdgeView {
        EdgeView { invalid_at: Some(at), invalidated_by: Some(by), ..self }
    }
}

/// Whether a list of rows has one under a key.
pub open spec fn filed(rows: Seq<EntityRowView>, key: Seq<char>) -> bool {
    exists|i: int| 0 <= i < rows.len() && (#[trigger] rows[i]).key == key
}

/// The rows that a memory's entities are filed as: one per key, the first
/// name winning, names that come to nothing left out.
pub open spec fn filed_entities(entities: Seq<EntityView>) -> Seq<EntityRowView>
    decreases entities.len(),
{
    if entities.len() == 0 {
        Seq::empty()
    } else {
        let earlier = filed_entities(entities.drop_last());
        let entity = entities.last();
        let key = canonical(entity.name);
        if key.len() == 0 || filed(earlier, key) {
            earlier
        } else {
            earlier.push(EntityRowView { key, name: entity.name, kind: entity.kind })
        }
    }
}

/// Whether a relation names two distinct things and a predicate.
pub open spec fn is_edge(relation: RelationView) -> bool {
    &&& canonical(relation.subject).len() > 0
    &&& canonical(relation.object).len() > 0
    &&& canonical_predicate(relation.predicate).len() > 0
    &&& canonical(relation.subject) != canonical(relation.object)
}

/// The open edge that a relation is filed as.
pub open spec fn edge_of(
    memory_id: MemoryId,
    relation: RelationView,
    valid_from: Timestamp,
) -> EdgeView {
    EdgeView {
        memory_id,
        subject: canonical(relation.subject),
        predicate: canonical_predicate(relation.predicate),
        object: canonical(relation.object),
        subject_name: trimmed(relation.subject),
        object_name: trimmed(relation.object),
        valid_from,
        invalid_at: None,
        invalidated_by: None,
    }
}

/// The open edges that a memory's relations are filed as, noise left out.
pub open spec fn filed_relations(
    memory_id: MemoryId,
    relations: Seq<RelationView>,
    valid_from: Timestamp,
) -> Seq<EdgeView>
    decreases relations.len(),
{
    if relations.len() == 0 {
        Seq::empty()
    } else {
        let earlier = filed_relations(memory_id, relations.drop_last(), valid_from);
        if is_edge(relations.last()) {
            earlier.push(edge_of(memory_id, relations.last(), valid_from))
        } else {
            earlier
        }
    }
}

/// Whether an assertion contradicts an edge: the same subject and predicate,
/// another object.
pub open spec fn contradicts(assertion: RelationView, edge: EdgeView) -> bool {
    &&& canonical(assertion.subject).len() > 0
    &&& canonical(assertion.object).len() > 0
    &&& canonical_predicate(assertion.predicate).len() > 0
    &&& edge.subject == canonical(assertion.subject)
    &&& edge.predicate == canonical_predicate(assertion.predicate)
    &&& edge.object != canonical(assertion.object)
}

/// What a memory's assertions make of an edge: an open edge of another memory
/// that one of them contradicts is closed, any other is left as it is.
pub open spec fn after_assertions(
    edge: EdgeView,
    assertions: Seq<RelationView>,
    at: Timestamp,
    by: MemoryId,
) -> EdgeView {
    if edge.invalid_at is None && edge.memory_id != by && exists|i: int|
        0 <= i < assertions.len() && contradicts(#[trigger] assertions[i], edge) {
        edge.closed_by(at, by)
    } else {
        edge
    }
}

pub open spec fn invalidated(
    edges: Seq<EdgeView>,
    assertions: Seq<RelationView>,
    at: Timestamp,
    by: MemoryId,
) -> Seq<EdgeView> {
    edges.map_values(|e: EdgeView| after_assertions(e, assertions, at, by))
}

/// An entity row with the memory that filed it.
#[derive(Debug)]
pub struct FiledEntity {
    pub memory_id: MemoryId,
    pub row: EntityRow,
}

pub struct FiledView {
    pub memory_id: MemoryId,
    pub row: EntityRowView,
}

impl View for FiledEntity {
    type V = FiledView;

    open spec fn view(&self) -> FiledView {
        FiledView { memory_id: self.memory_id, row: self.row@ }
    }
}

impl Edge {
    pub fn copy(&self) -> (copy: Edge)
        ensures
            copy@ == self@,
    {
        Edge {
            memory_id: self.memory_id,
            subject: self.subject.copy(),
            predicate: self.predicate.clone(),
            object: self.object.copy(),
            subject_name: self.subject_name.clone(),
            object_name: self.object_name.clone(),
            valid_from: self.valid_from,
            invalid_at: self.invalid_at,
            invalidated_by: self.invalidated_by,
        }
    }
}

/// Rows as one memory's.
pub open spec fn filed_under(memory_id: MemoryId, rows: Seq<EntityRowView>) -> Seq<FiledView> {
    rows.map_values(|r: EntityRowView| FiledView { memory_id, row: r })
}

/// The rows of the other memories.
pub open spec fn entities_elsewhere(rows: Seq<FiledView>, id: MemoryId) -> Seq<FiledView>
    decreases rows.len(),
{
    if rows.len() == 0 {
        Seq::empty()
    } else if rows.last().memory_id != id {
        entities_elsewhere(rows.drop_last(), id).push(rows.last())
    } else {
        entities_elsewhere(rows.drop_last(), id)
    }
}

/// The edges of the other memories and, where they are kept, the memory's own
/// closed ones.
pub open spec fn edges_elsewhere(
    edges: Seq<EdgeView>,
    id: MemoryId,
    keep_closed: bool,
) -> Seq<EdgeView>
    decreases edges.len(),
{
    if edges.len() == 0 {
        Seq::empty()
    } else if edges.last().memory_id != id || (keep_closed && edges.last().invalid_at is Some) {
        edges_elsewhere(edges.drop_last(), id, keep_closed).push(edges.last())
    } else {
        edges_elsewhere(edges.drop_last(), id, keep_closed)
    }
}

/// The rows once a memory's entities are recorded.
pub open spec fn recorded_entities(
    rows: Seq<FiledView>,
    id: MemoryId,
    entities: Seq<EntityView>,
) -> Seq<FiledView> {
    entities_elsewhere(rows, id) + filed_under(id, filed_entities(entities))
}

/// The edges once a memory's relations are recorded.
pub open spec fn recorded_relations(
    edges: Seq<EdgeView>,
    id: MemoryId,
    relations: Seq<RelationView>,
    valid_from: Timestamp,
) -> Seq<EdgeView> {
    edges_elsewhere(edges, id, true) + filed_relations(id, relations, valid_from)
}

/// The keys that are filed.
pub open spec fn known_keys(keys: Seq<Seq<char>>, filed_keys: Seq<Seq<char>>) -> Seq<Seq<char>>
    decreases keys.len(),
{
    if keys.len() == 0 {
        Seq::empty()
    } else if filed_keys.contains(keys.last()) {
        known_keys(keys.drop_last(), filed_keys).push(keys.last())
    } else {
        known_keys(keys.drop_last(), filed_keys)
    }
}

/// What is done to a user's graph.
#[derive(Debug)]
pub enum GraphChange {
    /// Take a memory's entities out.
    DropEntities(MemoryId),
    /// File an entity.
    FileEntity(FiledEntity),
    /// Take a memory's edges out, or only its open ones.
    DropEdges { memory_id: MemoryId, keep_closed: bool },
    /// File an edge.
    FileEdge(Edge),
    /// Close every open edge of another memory with this subject and
    /// predicate and another object.
    CloseEdges {
        subject: EntityKey,
        predicate: String,
        object: EntityKey,
        at: Timestamp,
        by: MemoryId,
    },
}

/// A user's entities after these changes.
pub open spec fn entities_after(rows: Seq<FiledView>, changes: Seq<GraphChange>) -> Seq<FiledView>
    decreases changes.len(),
{
    if changes.len() == 0 {
        rows
    } else {
        let before = entities_after(rows, changes.drop_last());
        match changes.last() {
            GraphChange::DropEntities(id) => entities_elsewhere(before, id),
            GraphChange::FileEntity(entity) => before.push(entity@),
            _ => before,
        }
    }
}

/// A user's edges after these changes.
pub open spec fn edges_after(edges: Seq<EdgeView>, changes: Seq<GraphChange>) -> Seq<EdgeView>
    decreases changes.len(),
{
    if changes.len() == 0 {
        edges
    } else {
        let before = edges_after(edges, changes.drop_last());
        match changes.last() {
            GraphChange::DropEdges { memory_id, keep_closed } => edges_elsewhere(
                before,
                memory_id,
                keep_closed,
            ),
            GraphChange::FileEdge(edge) => before.push(edge@),
            GraphChange::CloseEdges { subject, predicate, object, at, by } => before.map_values(
                |e: EdgeView|
                    if e.invalid_at is None && e.memory_id != by && e.subject == subject@
                        && e.predicate == predicate@ && e.object != object@ {
                        e.closed_by(at, by)
                    } else {
                        e
                    },
            ),
            _ => before,
        }
    }
}

/// An edge as the store holds it.
#[derive(Debug)]
pub struct EdgeRow {
    pub memory_id: String,
    pub subject_key: String,
    pub predicate: String,
    pub object_key: String,
    pub subject_name: String,
    pub object_name: String,
    pub valid_from: String,
    pub invalid_at: Option<String>,
    pub invalidated_by: Option<String>,
}

/// The row that an edge is stored as. A walk reads the edge back from it, where
/// RFC 3339 text carries its times.
pub fn edge_row(edge: &Edge) -> (row: EdgeRow)
    ensures
        row.memory_id@ == edge.memory_id.text(),
        row.subject_key@ == edge@.subject,
        row.predicate@ == edge@.predicate,
        row.object_key@ == edge@.object,
        row.subject_name@ == edge@.subject_name,
        row.object_name@ == edge@.object_name,
        row.valid_from@ == edge.valid_from.text(),
        option_text(row.invalid_at) == time_text(edge.invalid_at),
        option_text(row.invalidated_by) == (match edge.invalidated_by {
            Some(id) => Some(id.text()),
            None => None,
        }),
        edge.valid_from.writable() && (edge.invalid_at is Some ==> edge.invalid_at->0.writable())
            ==> stored_link(
            row.memory_id@,
            row.subject_key@,
            row.object_key@,
            row.valid_from@,
            option_text(row.invalid_at),
        ) == edge@.link(),
{
    let row = EdgeRow {
        memory_id: edge.memory_id.to_text(),
        subject_key: edge.subject.as_str().to_owned(),
        predicate: edge.predicate.clone(),
        object_key: edge.object.as_str().to_owned(),
        subject_name: edge.subject_name.clone(),
        object_name: edge.object_name.clone(),
        valid_from: edge.valid_from.to_text(),
        invalid_at: match edge.invalid_at {
            Some(time) => Some(time.to_text()),
            None => None,
        },
        invalidated_by: match edge.invalidated_by {
            Some(id) => Some(id.to_text()),
            None => None,
        },
    };
    proof {
        crate::shared::time::instants_are_their_parts(edge.valid_from, edge.valid_from);
        if edge.invalid_at is Some {
            crate::shared::time::instants_are_their_parts(
                edge.invalid_at->0,
                edge.invalid_at->0,
            );
        }
    }
    row
}

/// The graph's rules over a user's rows.
#[derive(Debug, Clone, Copy)]
pub struct SqliteEntityGraph;

fn has_row(rows: &Vec<EntityRow>, key: &EntityKey) -> (found: bool)
    ensures
        found == filed(row_views(rows@), key@),
{
    let mut i: usize = 0;
    while i < rows.len()
        invariant
            0 <= i <= rows@.len(),
            forall|j: int| 0 <= j < i ==> (#[trigger] row_views(rows@)[j]).key != key@,
        decreases rows@.len() - i,
    {
        assert(row_views(rows@)[i as int] == rows@[i as int]@);
        if rows[i].key.same(key) {
            return true;
        }
        i += 1;
    }
    false
}

impl SqliteEntityGraph {
    pub fn new() -> (graph: SqliteEntityGraph) {
        SqliteEntityGraph
    }

    /// The rows that replace a memory's entities. A name that canonicalises
    /// to nothing is skipped, and so is a second mention of one entity.
    pub fn replace_entities(&self, entities: &Vec<Entity>) -> (rows: Vec<EntityRow>)
        ensures
            row_views(rows@) == filed_entities(entity_views(entities@)),
    {
        let mut rows: Vec<EntityRow> = Vec::new();
        let mut i: usize = 0;
        assert(entity_views(entities@).take(0) =~= Seq::empty());
        assert(row_views(rows@) =~= Seq::empty());
        while i < entities.len()
            invariant
                0 <= i <= entities@.len(),
                row_views(rows@) == filed_entities(entity_views(entities@).take(i as int)),
            decreases entities@.len() - i,
        {
            let key = EntityKey::new(entities[i].name.as_str());
            proof {
                let grown = entity_views(entities@).take(i + 1);
                assert(grown.drop_last() =~= entity_views(entities@).take(i as int));
                assert(grown.last() == entities@[i as int]@);
            }
            if !key.is_empty() && !has_row(&rows, &key) {
                let ghost before = rows@;
                let row = EntityRow {
                    key,
                    name: entities[i].name.clone(),
                    kind: entities[i].kind.clone(),
                };
                let ghost added = row@;
                rows.push(row);
                assert(row_views(rows@) =~= row_views(before).push(added));
            }
            i += 1;
        }
        assert(entity_views(entities@).take(entities@.len() as int) =~= entity_views(entities@));
        rows
    }

    /// The edges that replace a memory's open ones. A relation needs two
    /// distinct, real ends and a predicate.
    pub fn replace_open_relations(
        &self,
        memory_id: MemoryId,
        relations: &Vec<Relation>,
        valid_from: Timestamp,
    ) -> (edges: Vec<Edge>)
        ensures
            edge_views(edges@) == filed_relations(
                memory_id,
                relation_views(relations@),
                valid_from,
            ),
    {
        let mut edges: Vec<Edge> = Vec::new();
        let mut i: usize = 0;
        assert(relation_views(relations@).take(0) =~= Seq::empty());
        assert(edge_views(edges@) =~= Seq::empty());
        while i < relations.len()
            invariant
                0 <= i <= relations@.len(),
                edge_views(edges@) == filed_relations(
                    memory_id,
                    relation_views(relations@).take(i as int),
                    valid_from,
                ),
            decreases relations@.len() - i,
        {
            let subject = EntityKey::new(relations[i].subject.as_str());
            let object = EntityKey::new(relations[i].object.as_str());
            let predicate = normalise_predicate(relations[i].predicate.as_str());
            proof {
                let grown = relation_views(relations@).take(i + 1);
                assert(grown.drop_last() =~= relation_views(relations@).take(i as int));
                assert(grown.last() == relations@[i as int]@);
            }
            if !subject.is_empty() && !object.is_empty() && !predicate.as_str().is_empty()
                && !subject.same(&object) {
                let ghost before = edges@;
                let edge = Edge {
                    memory_id,
                    subject,
                    predicate,
                    object,
                    subject_name: trim(relations[i].subject.as_str()),
                    object_name: trim(relations[i].object.as_str()),
                    valid_from,
                    invalid_at: None,
                    invalidated_by: None,
                };
                let ghost added = edge@;
                edges.push(edge);
                assert(edge_views(edges@) =~= edge_views(before).push(added));
            }
            i += 1;
        }
        assert(relation_views(relations@).take(relations@.len() as int) =~= relation_views(
            relations@,
        ));
        edges
    }

    /// Closes the interval of every open edge that `superseding`
    /// contradicts. What the assertions merely repeat, what is closed
    /// already, and the asserting memory's own edges stay as they are.
    pub fn invalidate(&self, superseding: &Vec<Relation>, at: Timestamp, by: MemoryId) -> (changes:
        Vec<GraphChange>)
        ensures
            forall|edges: Seq<EdgeView>| #[trigger]
                edges_after(edges, changes@) == invalidated(
                    edges,
                    relation_views(superseding@),
                    at,
                    by,
                ),
            forall|rows: Seq<FiledView>| #[trigger] entities_after(rows, changes@) == rows,
    {
        let ghost all = relation_views(superseding@);
        let mut changes: Vec<GraphChange> = Vec::new();
        let mut i: usize = 0;
        proof {
            assert forall|edges: Seq<EdgeView>| #[trigger]
                edges_after(edges, changes@) == invalidated(edges, all.take(0), at, by) by {
                assert(invalidated(edges, all.take(0), at, by) =~= edges);
            }
        }
        while i < superseding.len()
            invariant
                0 <= i <= superseding@.len(),
                all == relation_views(superseding@),
                forall|edges: Seq<EdgeView>| #[trigger]
                    edges_after(edges, changes@) == invalidated(
                        edges,
                        all.take(i as int),
                        at,
                        by,
                    ),
                forall|rows: Seq<FiledView>| #[trigger] entities_after(rows, changes@) == rows,
            decreases superseding@.len() - i,
        {
            let subject = EntityKey::new(superseding[i].subject.as_str());
            let object = EntityKey::new(superseding[i].object.as_str());
            let predicate = normalise_predicate(superseding[i].predicate.as_str());
            let ghost before = changes@;
            let ghost assertion = all[i as int];
            assert(assertion == superseding@[i as int]@);
            if !subject.is_empty() && !object.is_empty() && !predicate.as_str().is_empty() {
                changes.push(GraphChange::CloseEdges { subject, predicate, object, at, by });
                assert(changes@.drop_last() =~= before);
            }
            proof {
                assert forall|edges: Seq<EdgeView>| #[trigger]
                    edges_after(edges, changes@) == invalidated(
                    edges,
                    all.take(i + 1),
                    at,
                    by,
                ) by {
                    assert(edges_after(edges, before) == invalidated(
                        edges,
                        all.take(i as int),
                        at,
                        by,
                    ));
                    assert forall|k: int| 0 <= k < edges.len() implies #[trigger] edges_after(
                        edges,
                        changes@,
                    )[k] == after_assertions(edges[k], all.take(i + 1), at, by) by {
                        lemma_one_more_assertion(edges[k], all, i as int, at, by);
                    }
                    assert(edges_after(edges, changes@) =~= invalidated(
                        edges,
                        all.take(i + 1),
                        at,
                        by,
                    ));
                }
                assert forall|rows: Seq<FiledView>| #[trigger]
                    entities_after(rows, changes@) == rows by {
                    assert(entities_after(rows, before) == rows);
                }
            }
            i += 1;
        }
        assert(all.take(all.len() as int) =~= all);
        changes
    }

    /// Replaces a memory's entities wholesale: entities carry no time, so there
    /// is no history to keep.
    pub fn record_entities(&self, memory_id: MemoryId, entities: &Vec<Entity>) -> (changes: Vec<
        GraphChange,
    >)
        ensures
            forall|rows: Seq<FiledView>| #[trigger]
                entities_after(rows, changes@) == recorded_entities(
                    rows,
                    memory_id,
                    entity_views(entities@),
                ),
            forall|edges: Seq<EdgeView>| #[trigger] edges_after(edges, changes@) == edges,
    {
        self.with_entities(Vec::new(), memory_id, entities)
    }

    /// The changes, and then those that replace a memory's entities.
    fn with_entities(
        &self,
        changes: Vec<GraphChange>,
        memory_id: MemoryId,
        entities: &Vec<Entity>,
    ) -> (grown: Vec<GraphChange>)
        ensures
            forall|rows: Seq<FiledView>| #[trigger]
                entities_after(rows, grown@) == recorded_entities(
                    entities_after(rows, changes@),
                    memory_id,
                    entity_views(entities@),
                ),
            forall|edges: Seq<EdgeView>| #[trigger]
                edges_after(edges, grown@) == edges_after(edges, changes@),
    {
        let mut grown = changes;
        let fresh = self.replace_entities(entities);
        let ghost all = filed_under(memory_id, row_views(fresh@));
        grown.push(GraphChange::DropEntities(memory_id));
        let mut i: usize = 0;
        proof {
            assert(grown@.drop_last() =~= changes@);
            assert forall|rows: Seq<FiledView>| #[trigger]
                entities_after(rows, grown@) == entities_elsewhere(
                entities_after(rows, changes@),
                memory_id,
            ) + all.take(0) by {
                assert(entities_after(rows, grown@) + all.take(0) =~= entities_after(rows, grown@));
            }
        }
        while i < fresh.len()
            invariant
                0 <= i <= fresh@.len(),
                all == filed_under(memory_id, row_views(fresh@)),
                forall|rows: Seq<FiledView>| #[trigger]
                    entities_after(rows, grown@) == entities_elsewhere(
                        entities_after(rows, changes@),
                        memory_id,
                    ) + all.take(i as int),
                forall|edges: Seq<EdgeView>| #[trigger]
                    edges_after(edges, grown@) == edges_after(edges, changes@),
            decreases fresh@.len() - i,
        {
            let row = EntityRow {
                key: fresh[i].key.copy(),
                name: fresh[i].name.clone(),
                kind: fresh[i].kind.clone(),
            };
            let entry = FiledEntity { memory_id, row };
            let ghost before = grown@;
            let ghost added = entry@;
            grown.push(GraphChange::FileEntity(entry));
            proof {
                assert(grown@.drop_last() =~= before);
                assert(added == all[i as int]);
                assert forall|rows: Seq<FiledView>| #[trigger]
                    entities_after(rows, grown@) == entities_elsewhere(
                    entities_after(rows, changes@),
                    memory_id,
                ) + all.take(i + 1) by {
                    let kept = entities_elsewhere(entities_after(rows, changes@), memory_id);
                    assert(entities_after(rows, before) == kept + all.take(i as int));
                    assert(kept + all.take(i + 1) =~= (kept + all.take(i as int)).push(added));
                }
                assert forall|edges: Seq<EdgeView>| #[trigger]
                    edges_after(edges, grown@) == edges_after(edges, changes@) by {
                    assert(edges_after(edges, before) == edges_after(edges, changes@));
                }
            }
            i += 1;
        }
        assert(all.take(all.len() as int) =~= all);
        grown
    }

    /// Replaces a memory's open edges. What a later memory closed already is
    /// history and stays: a fact superseded on one day does not come back
    /// because its memory is written again on another.
    pub fn record_relations(
        &self,
        memory_id: MemoryId,
        relations: &Vec<Relation>,
        valid_from: Timestamp,
    ) -> (changes: Vec<GraphChange>)
        ensures
            forall|edges: Seq<EdgeView>| #[trigger]
                edges_after(edges, changes@) == recorded_relations(
                    edges,
                    memory_id,
                    relation_views(relations@),
                    valid_from,
                ),
            forall|rows: Seq<FiledView>| #[trigger] entities_after(rows, changes@) == rows,
    {
        self.with_relations(Vec::new(), memory_id, relations, valid_from)
    }

    /// The changes, and then those that replace a memory's open edges.
    fn with_relations(
        &self,
        changes: Vec<GraphChange>,
        memory_id: MemoryId,
        relations: &Vec<Relation>,
        valid_from: Timestamp,
    ) -> (grown: Vec<GraphChange>)
        ensures
            forall|edges: Seq<EdgeView>| #[trigger]
                edges_after(edges, grown@) == recorded_relations(
                    edges_after(edges, changes@),
                    memory_id,
                    relation_views(relations@),
                    valid_from,
                ),
            forall|rows: Seq<FiledView>| #[trigger]
                entities_after(rows, grown@) == entities_after(rows, changes@),
    {
        let mut grown = changes;
        let fresh = self.replace_open_relations(memory_id, relations, valid_from);
        let ghost all = edge_views(fresh@);
        grown.push(GraphChange::DropEdges { memory_id, keep_closed: true });
        let mut i: usize = 0;
        proof {
            assert(grown@.drop_last() =~= changes@);
            assert forall|edges: Seq<EdgeView>| #[trigger]
                edges_after(edges, grown@) == edges_elsewhere(
                edges_after(edges, changes@),
                memory_id,
                true,
            ) + all.take(0) by {
                assert(edges_after(edges, grown@) + all.take(0) =~= edges_after(edges, grown@));
            }
        }
        while i < fresh.len()
            invariant
                0 <= i <= fresh@.len(),
                all == edge_views(fresh@),
                forall|edges: Seq<EdgeView>| #[trigger]
                    edges_after(edges, grown@) == edges_elsewhere(
                        edges_after(edges, changes@),
                        memory_id,
                        true,
                    ) + all.take(i as int),
                forall|rows: Seq<FiledView>| #[trigger]
                    entities_after(rows, grown@) == entities_after(rows, changes@),
            decreases fresh@.len() - i,
        {
            let edge = fresh[i].copy();
            let ghost before = grown@;
            let ghost added = edge@;
            grown.push(GraphChange::FileEdge(edge));
            proof {
                assert(grown@.drop_last() =~= before);
                assert(added == all[i as int]);
                assert forall|edges: Seq<EdgeView>| #[trigger]
                    edges_after(edges, grown@) == edges_elsewhere(
                    edges_after(edges, changes@),
                    memory_id,
                    true,
                ) + all.take(i + 1) by {
                    let kept = edges_elsewhere(edges_after(edges, changes@), memory_id, true);
                    assert(edges_after(edges, before) == kept + all.take(i as int));
                    assert(kept + all.take(i + 1) =~= (kept + all.take(i as int)).push(added));
                }
                assert forall|rows: Seq<FiledView>| #[trigger]
                    entities_after(rows, grown@) == entities_after(rows, changes@) by {
                    assert(entities_after(rows, before) == entities_after(rows, changes@));
                }
            }
            i += 1;
        }
        assert(all.take(all.len() as int) =~= all);
        grown
    }

    /// Replaces a memory's whole projection, its entities and its open edges
    /// together.
    pub fn record(
        &self,
        memory_id: MemoryId,
        entities: &Vec<Entity>,
        relations: &Vec<Relation>,
        valid_from: Timestamp,
    ) -> (changes: Vec<GraphChange>)
        ensures
            forall|rows: Seq<FiledView>| #[trigger]
                entities_after(rows, changes@) == recorded_entities(
                    rows,
                    memory_id,
                    entity_views(entities@),
                ),
            forall|edges: Seq<EdgeView>| #[trigger]
                edges_after(edges, changes@) == recorded_relations(
                    edges,
                    memory_id,
                    relation_views(relations@),
                    valid_from,
                ),
    {
        let filed = self.record_entities(memory_id, entities);
        let changes = self.with_relations(filed, memory_id, relations, valid_from);
        proof {
            assert forall|edges: Seq<EdgeView>| #[trigger]
                edges_after(edges, changes@) == recorded_relations(
                edges,
                memory_id,
                relation_views(relations@),
                valid_from,
            ) by {
                assert(edges_after(edges, filed@) == edges);
            }
            assert forall|rows: Seq<FiledView>| #[trigger]
                entities_after(rows, changes@) == recorded_entities(
                rows,
                memory_id,
                entity_views(entities@),
            ) by {
                assert(entities_after(rows, filed@) == recorded_entities(
                    rows,
                    memory_id,
                    entity_views(entities@),
                ));
            }
        }
        changes
    }

    /// Takes a memory out of the graph, history included.
    pub fn remove(&self, memory_id: MemoryId) -> (changes: Vec<GraphChange>)
        ensures
            forall|rows: Seq<FiledView>| #[trigger]
                entities_after(rows, changes@) == entities_elsewhere(rows, memory_id),
            forall|edges: Seq<EdgeView>| #[trigger]
                edges_after(edges, changes@) == edges_elsewhere(edges, memory_id, false),
    {
        let mut changes: Vec<GraphChange> = Vec::new();
        changes.push(GraphChange::DropEntities(memory_id));
        changes.push(GraphChange::DropEdges { memory_id, keep_closed: false });
        proof {
            reveal_with_fuel(entities_after, 3);
            reveal_with_fuel(edges_after, 3);
        }
        changes
    }

    /// Which of the candidate names the graph knows, each once. Names that
    /// come to nothing are left out.
    pub fn seeds(&self, filed_keys: &Vec<EntityKey>, candidates: &Vec<EntityKey>) -> (keys: Vec<
        EntityKey,
    >)
        ensures
            key_views(keys@) == known_keys(
                distinct_keys(key_views(candidates@)),
                key_views(filed_keys@),
            ),
    {
        let distinct_candidates = distinct(candidates);
        let ghost all = key_views(distinct_candidates@);
        let mut keys: Vec<EntityKey> = Vec::new();
        let mut i: usize = 0;
        assert(all.take(0) =~= Seq::empty());
        assert(key_views(keys@) =~= Seq::empty());
        while i < distinct_candidates.len()
            invariant
                0 <= i <= distinct_candidates@.len(),
                all == key_views(distinct_candidates@),
                key_views(keys@) == known_keys(all.take(i as int), key_views(filed_keys@)),
            decreases distinct_candidates@.len() - i,
        {
            proof {
                assert(all.take(i + 1).drop_last() =~= all.take(i as int));
                assert(all.take(i + 1).last() == distinct_candidates@[i as int]@);
            }
            if holds_key(filed_keys, &distinct_candidates[i]) {
                let ghost before = keys@;
                let key = distinct_candidates[i].copy();
                let ghost added = key@;
                keys.push(key);
                assert(key_views(keys@) =~= key_views(before).push(added));
            }
            i += 1;
        }
        assert(all.take(all.len() as int) =~= all);
        keys
    }
}

/// One assertion more closes what it contradicts, if no earlier one did.
proof fn lemma_one_more_assertion(
    edge: EdgeView,
    assertions: Seq<RelationView>,
    i: int,
    at: Timestamp,
    by: MemoryId,
)
    requires
        0 <= i < assertions.len(),
    ensures
        ({
            let before = after_assertions(edge, assertions.take(i), at, by);
            after_assertions(edge, assertions.take(i + 1), at, by) == (if before.invalid_at is None
                && before.memory_id != by && contradicts(assertions[i], before) {
                before.closed_by(at, by)
            } else {
                before
            })
        }),
{
    let fewer = assertions.take(i);
    let more = assertions.take(i + 1);
    assert(more[i] == assertions[i]);
    if exists|k: int| 0 <= k < fewer.len() && contradicts(#[trigger] fewer[k], edge) {
        let k = choose|k: int| 0 <= k < fewer.len() && contradicts(#[trigger] fewer[k], edge);
        assert(contradicts(more[k], edge));
    } else if exists|k: int| 0 <= k < more.len() && contradicts(#[trigger] more[k], edge) {
        let k = choose|k: int| 0 <= k < more.len() && contradicts(#[trigger] more[k], edge);
        if k < i {
            assert(contradicts(fewer[k], edge));
        }
    }
}

/// Assertions never touch history: a closed edge stays as it was closed, and
/// so do the asserting memory's own edges.
pub proof fn closed_edges_never_move(
    edge: EdgeView,
    assertions: Seq<RelationView>,
    at: Timestamp,
    by: MemoryId,
)
    ensures
        edge.invalid_at is Some ==> after_assertions(edge, assertions, at, by) == edge,
        edge.memory_id == by ==> after_assertions(edge, assertions, at, by) == edge,
{
}

/// An edge that no assertion contradicts, such as one that every assertion on
/// its subject repeats, is left as it is.
pub proof fn repeated_facts_stay_open(
    edge: EdgeView,
    assertions: Seq<RelationView>,
    at: Timestamp,
    by: MemoryId,
)
    requires
        forall|i: int|
            0 <= i < assertions.len() ==> canonical((#[trigger] assertions[i]).object)
                == edge.object || canonical(assertions[i].subject) != edge.subject,
    ensures
        after_assertions(edge, assertions, at, by) == edge,
{
}

/// Asserting the same again, at whatever time, changes nothing.
pub proof fn invalidating_is_idempotent(
    edges: Seq<EdgeView>,
    assertions: Seq<RelationView>,
    at: Timestamp,
    again: Timestamp,
    by: MemoryId,
)
    ensures
        invalidated(invalidated(edges, assertions, at, by), assertions, again, by) == invalidated(
            edges,
            assertions,
            at,
            by,
        ),
{
    let once = invalidated(edges, assertions, at, by);
    assert(invalidated(once, assertions, again, by) =~= once);
}

/// A contradicted edge held before the contradiction and does not hold from
/// it on.
pub proof fn contradiction_ends_validity(edge: EdgeView, at: Timestamp, by: MemoryId, when: Timestamp)
    requires
        edge.invalid_at is None,
        !at.before(edge.valid_from),
    ensures
        edge.closed_by(at, by).live_at(when) <==> !when.before(edge.valid_from) && when.before(at),
{
}

/// Recording a memory's relations keeps every edge of the other memories and
/// every edge that was closed.
pub proof fn recording_keeps_history(
    edges: Seq<EdgeView>,
    id: MemoryId,
    relations: Seq<RelationView>,
    valid_from: Timestamp,
    edge: EdgeView,
)
    requires
        edges.contains(edge),
        edge.memory_id != id || edge.invalid_at is Some,
    ensures
        recorded_relations(edges, id, relations, valid_from).contains(edge),
{
    let kept = edges_elsewhere(edges, id, true);
    lemma_kept_edge(edges, id, edge);
    let i = choose|i: int| 0 <= i < kept.len() && kept[i] == edge;
    assert(recorded_relations(edges, id, relations, valid_from)[i] == edge);
}

proof fn lemma_kept_edge(edges: Seq<EdgeView>, id: MemoryId, edge: EdgeView)
    requires
        edges.contains(edge),
        edge.memory_id != id || edge.invalid_at is Some,
    ensures
        edges_elsewhere(edges, id, true).contains(edge),
    decreases edges.len(),
{
    let kept = edges_elsewhere(edges, id, true);
    if edges.last() == edge {
        assert(kept.last() == edge);
    } else {
        let i = choose|i: int| 0 <= i < edges.len() && edges[i] == edge;
        assert(edges.drop_last()[i] == edge);
        lemma_kept_edge(edges.drop_last(), id, edge);
        let fewer = edges_elsewhere(edges.drop_last(), id, true);
        let j = choose|j: int| 0 <= j < fewer.len() && fewer[j] == edge;
        assert(kept[j] == edge);
    }
}

/// Recording the same relations again replaces the open edges with
/// themselves: nothing is filed twice.
pub proof fn recording_is_idempotent(
    edges: Seq<EdgeView>,
    id: MemoryId,
    relations: Seq<RelationView>,
    valid_from: Timestamp,
)
    ensures
        recorded_relations(
            recorded_relations(edges, id, relations, valid_from),
            id,
            relations,
            valid_from,
        ) == recorded_relations(edges, id, relations, valid_from),
{
    let kept = edges_elsewhere(edges, id, true);
    let fresh = filed_relations(id, relations, valid_from);
    lemma_fresh_edges(id, relations, valid_from);
    lemma_elsewhere_twice(edges, id);
    lemma_elsewhere_drops(kept, fresh, id);
}

proof fn lemma_fresh_edges(id: MemoryId, relations: Seq<RelationView>, valid_from: Timestamp)
    ensures
        forall|i: int|
            0 <= i < filed_relations(id, relations, valid_from).len() ==> (
            #[trigger] filed_relations(id, relations, valid_from)[i]).memory_id == id
                && filed_relations(id, relations, valid_from)[i].invalid_at is None,
    decreases relations.len(),
{
    if relations.len() > 0 {
        lemma_fresh_edges(id, relations.drop_last(), valid_from);
    }
}

proof fn lemma_elsewhere_twice(edges: Seq<EdgeView>, id: MemoryId)
    ensures
        edges_elsewhere(edges_elsewhere(edges, id, true), id, true) == edges_elsewhere(
            edges,
            id,
            true,
        ),
    decreases edges.len(),
{
    if edges.len() > 0 {
        lemma_elsewhere_twice(edges.drop_last(), id);
        let fewer = edges_elsewhere(edges.drop_last(), id, true);
        assert(fewer.push(edges.last()).drop_last() =~= fewer);
    }
}

proof fn lemma_elsewhere_drops(kept: Seq<EdgeView>, fresh: Seq<EdgeView>, id: MemoryId)
    requires
        forall|i: int|
            0 <= i < fresh.len() ==> (#[trigger] fresh[i]).memory_id == id && fresh[i].invalid_at
                is None,
    ensures
        edges_elsewhere(kept + fresh, id, true) == edges_elsewhere(kept, id, true),
    decreases fresh.len(),
{
    if fresh.len() == 0 {
        assert(kept + fresh =~= kept);
    } else {
        assert((kept + fresh).drop_last() =~= kept + fresh.drop_last());
        assert((kept + fresh).last() == fresh.last());
        lemma_elsewhere_drops(kept, fresh.drop_last(), id);
    }
}

/// Recording the same entities again replaces a memory's rows with
/// themselves: nothing is filed twice.
pub proof fn recording_entities_is_idempotent(
    rows: Seq<FiledView>,
    id: MemoryId,
    entities: Seq<EntityView>,
)
    ensures
        recorded_entities(recorded_entities(rows, id, entities), id, entities)
            == recorded_entities(rows, id, entities),
{
    let kept = entities_elsewhere(rows, id);
    let fresh = filed_under(id, filed_entities(entities));
    lemma_rows_elsewhere_twice(rows, id);
    lemma_rows_elsewhere_drops(kept, fresh, id);
}

proof fn lemma_rows_elsewhere_twice(rows: Seq<FiledView>, id: MemoryId)
    ensures
        entities_elsewhere(entities_elsewhere(rows, id), id) == entities_elsewhere(rows, id),
    decreases rows.len(),
{
    if rows.len() > 0 {
        lemma_rows_elsewhere_twice(rows.drop_last(), id);
        let fewer = entities_elsewhere(rows.drop_last(), id);
        assert(fewer.push(rows.last()).drop_last() =~= fewer);
    }
}

proof fn lemma_rows_elsewhere_drops(kept: Seq<FiledView>, fresh: Seq<FiledView>, id: MemoryId)
    requires
        forall|i: int| 0 <= i < fresh.len() ==> (#[trigger] fresh[i]).memory_id == id,
    ensures
        entities_elsewhere(kept + fresh, id) == entities_elsewhere(kept, id),
    decreases fresh.len(),
{
    if fresh.len() == 0 {
        assert(kept + fresh =~= kept);
    } else {
        assert((kept + fresh).drop_last() =~= kept + fresh.drop_last());
        assert((kept + fresh).last() == fresh.last());
        lemma_rows_elsewhere_drops(kept, fresh.drop_last(), id);
    }
}

/// Every entity that a memory names is filed under its key, once, with the name
/// and the kind that it was first given; and nothing else is.
pub proof fn every_entity_is_filed_once(entities: Seq<EntityView>, key: Seq<char>)
    ensures
        filed(filed_entities(entities), key) <==> key.len() > 0 && exists|i: int|
            0 <= i < entities.len() && canonical((#[trigger] entities[i]).name) == key,
        forall|r: int|
            0 <= r < filed_entities(entities).len() ==> is_first_mention(
                #[trigger] filed_entities(entities)[r],
                entities,
            ),
        forall|r: int, q: int|
            0 <= r < q < filed_entities(entities).len() ==> (#[trigger] filed_entities(
                entities,
            )[r]).key != (#[trigger] filed_entities(entities)[q]).key,
    decreases entities.len(),
{
    let rows = filed_entities(entities);
    if entities.len() > 0 {
        let shorter = entities.drop_last();
        let earlier = filed_entities(shorter);
        let last = entities.last();
        let own = canonical(last.name);
        every_entity_is_filed_once(shorter, key);
        every_entity_is_filed_once(shorter, own);
        if exists|i: int| 0 <= i < shorter.len() && canonical((#[trigger] shorter[i]).name) == key {
            let i = choose|i: int|
                0 <= i < shorter.len() && canonical((#[trigger] shorter[i]).name) == key;
            assert(canonical(entities[i].name) == key);
        }
        if exists|i: int| 0 <= i < entities.len() && canonical((#[trigger] entities[i]).name)
            == key {
            let i = choose|i: int|
                0 <= i < entities.len() && canonical((#[trigger] entities[i]).name) == key;
            if i < shorter.len() {
                assert(canonical(shorter[i].name) == key);
            } else {
                assert(own == key);
            }
        }
        if filed(earlier, key) {
            let k = choose|k: int| 0 <= k < earlier.len() && (#[trigger] earlier[k]).key == key;
            assert(rows[k].key == key);
        }
        if own.len() > 0 && !filed(earlier, own) {
            assert(rows[earlier.len() as int].key == own);
            assert(canonical(entities[entities.len() - 1].name) == own);
        }
        if filed(rows, key) {
            let k = choose|k: int| 0 <= k < rows.len() && (#[trigger] rows[k]).key == key;
            if k < earlier.len() {
                assert(earlier[k].key == key);
            } else {
                assert(canonical(entities[entities.len() - 1].name) == key);
            }
        }
        assert forall|r: int| 0 <= r < rows.len() implies is_first_mention(
            #[trigger] rows[r],
            entities,
        ) by {
            if r < earlier.len() {
                assert(rows[r] == earlier[r]);
                assert(is_first_mention(earlier[r], shorter));
                let i = choose|i: int| #[trigger] is_mention(earlier[r], shorter, i);
                assert forall|j: int| 0 <= j < i implies canonical((#[trigger] entities[j]).name)
                    != rows[r].key by {
                    assert(entities[j] == shorter[j]);
                }
                assert(is_mention(rows[r], entities, i));
            } else {
                let i = entities.len() - 1;
                assert forall|j: int| 0 <= j < i implies canonical((#[trigger] entities[j]).name)
                    != rows[r].key by {
                    assert(entities[j] == shorter[j]);
                }
                assert(is_mention(rows[r], entities, i));
            }
        }
        assert forall|r: int, q: int| 0 <= r < q < rows.len() implies (#[trigger] rows[r]).key != (
        #[trigger] rows[q]).key by {
            assert(rows[r] == earlier[r]);
            if q < earlier.len() {
                assert(rows[q] == earlier[q]);
            }
        }
    }
}

/// Whether a row files the entity at a place, and none before it has its key.
pub open spec fn is_mention(row: EntityRowView, entities: Seq<EntityView>, i: int) -> bool {
    &&& 0 <= i < entities.len()
    &&& canonical(entities[i].name) == row.key
    &&& row.name == entities[i].name
    &&& row.kind == entities[i].kind
    &&& forall|j: int| 0 <= j < i ==> canonical((#[trigger] entities[j]).name) != row.key
}

/// Whether a row is the first mention of an entity.
pub open spec fn is_first_mention(row: EntityRowView, entities: Seq<EntityView>) -> bool {
    exists|i: int| #[trigger] is_mention(row, entities, i)
}

/// A relation is filed unless an end or the predicate comes to nothing or both
/// ends are one: as an open edge between the keys of its ends, from the time
/// that was given, with the names as they were written. Those that are stand in
/// their order.
pub proof fn every_relation_is_filed(
    memory_id: MemoryId,
    relations: Seq<RelationView>,
    valid_from: Timestamp,
)
    ensures
        filed_relations(memory_id, relations, valid_from) == relations.filter(
            |r: RelationView|
                canonical(r.subject).len() > 0 && canonical(r.object).len() > 0
                    && canonical_predicate(r.predicate).len() > 0 && canonical(r.subject)
                    != canonical(r.object),
        ).map_values(
            |r: RelationView|
                EdgeView {
                    memory_id,
                    subject: canonical(r.subject),
                    predicate: canonical_predicate(r.predicate),
                    object: canonical(r.object),
                    subject_name: trimmed(r.subject),
                    object_name: trimmed(r.object),
                    valid_from,
                    invalid_at: None,
                    invalidated_by: None,
                },
        ),
    decreases relations.len(),
{
    reveal(Seq::filter);
    let p = |r: RelationView|
        canonical(r.subject).len() > 0 && canonical(r.object).len() > 0 && canonical_predicate(
            r.predicate,
        ).len() > 0 && canonical(r.subject) != canonical(r.object);
    let f = |r: RelationView|
        EdgeView {
            memory_id,
            subject: canonical(r.subject),
            predicate: canonical_predicate(r.predicate),
            object: canonical(r.object),
            subject_name: trimmed(r.subject),
            object_name: trimmed(r.object),
            valid_from,
            invalid_at: None,
            invalidated_by: None,
        };
    if relations.len() > 0 {
        every_relation_is_filed(memory_id, relations.drop_last(), valid_from);
        let earlier = relations.drop_last().filter(p);
        if p(relations.last()) {
            assert(relations.filter(p).map_values(f) =~= earlier.map_values(f).push(
                f(relations.last()),
            ));
        }
    }
    assert(filed_relations(memory_id, relations, valid_from) =~= relations.filter(p).map_values(f));
}

/// An open edge of another memory is closed, at the time and by the memory that
/// was given, if some assertion has its subject and its predicate but another
/// object; every other edge stays as it is, and so does everything else of this
/// one.
pub proof fn contradicted_edges_are_closed(
    edges: Seq<EdgeView>,
    assertions: Seq<RelationView>,
    at: Timestamp,
    by: MemoryId,
    k: int,
)
    requires
        0 <= k < edges.len(),
    ensures
        ({
            let edge = edges[k];
            let after = invalidated(edges, assertions, at, by)[k];
            let hit = edge.invalid_at is None && edge.memory_id != by && exists|i: int|
                0 <= i < assertions.len() && canonical((#[trigger] assertions[i]).subject).len() > 0
                    && canonical(assertions[i].object).len() > 0 && canonical_predicate(
                    assertions[i].predicate,
                ).len() > 0 && canonical(assertions[i].subject) == edge.subject
                    && canonical_predicate(assertions[i].predicate) == edge.predicate && canonical(
                    assertions[i].object,
                ) != edge.object;
            &&& invalidated(edges, assertions, at, by).len() == edges.len()
            &&& hit ==> after.invalid_at == Some(at) && after.invalidated_by == Some(by) && (
            EdgeView { invalid_at: None, invalidated_by: edge.invalidated_by, ..after }) == edge
            &&& !hit ==> after == edge
        }),
{
    let edge = edges[k];
    if exists|i: int| 0 <= i < assertions.len() && contradicts(#[trigger] assertions[i], edge) {
        let i = choose|i: int|
            0 <= i < assertions.len() && contradicts(#[trigger] assertions[i], edge);
        assert(canonical(assertions[i].subject) == edge.subject);
    }
    if exists|i: int|
        0 <= i < assertions.len() && canonical((#[trigger] assertions[i]).subject).len() > 0
            && canonical(assertions[i].object).len() > 0 && canonical_predicate(
            assertions[i].predicate,
        ).len() > 0 && canonical(assertions[i].subject) == edge.subject && canonical_predicate(
            assertions[i].predicate,
        ) == edge.predicate && canonical(assertions[i].object) != edge.object {
        let i = choose|i: int|
            0 <= i < assertions.len() && canonical((#[trigger] assertions[i]).subject).len() > 0
                && canonical(assertions[i].object).len() > 0 && canonical_predicate(
                assertions[i].predicate,
            ).len() > 0 && canonical(assertions[i].subject) == edge.subject
                && canonical_predicate(assertions[i].predicate) == edge.predicate && canonical(
                assertions[i].object,
            ) != edge.object;
        assert(contradicts(assertions[i], edge));
    }
}

/// What stays of a memory's rows: those of the other memories, all of them, in
/// order; and of its own edges, where history is kept, those that are closed.
pub proof fn other_memories_keep_their_rows(
    rows: Seq<FiledView>,
    edges: Seq<EdgeView>,
    id: MemoryId,
)
    ensures
        entities_elsewhere(rows, id) == rows.filter(|r: FiledView| r.memory_id != id),
        edges_elsewhere(edges, id, false) == edges.filter(|e: EdgeView| e.memory_id != id),
        edges_elsewhere(edges, id, true) == edges.filter(
            |e: EdgeView| e.memory_id != id || e.invalid_at is Some,
        ),
    decreases rows.len() + edges.len(),
{
    reveal(Seq::filter);
    if rows.len() > 0 {
        other_memories_keep_their_rows(rows.drop_last(), edges, id);
    } else if edges.len() > 0 {
        other_memories_keep_their_rows(rows, edges.drop_last(), id);
    }
}

/// Recording puts a memory's entities and relations behind what stays, and
/// nothing between.
pub proof fn recordings_follow_what_stays(
    rows: Seq<FiledView>,
    edges: Seq<EdgeView>,
    id: MemoryId,
    entities: Seq<EntityView>,
    relations: Seq<RelationView>,
    valid_from: Timestamp,
)
    ensures
        recorded_entities(rows, id, entities) == rows.filter(|r: FiledView| r.memory_id != id)
            + filed_entities(entities).map_values(
            |r: EntityRowView| FiledView { memory_id: id, row: r },
        ),
        recorded_relations(edges, id, relations, valid_from) == edges.filter(
            |e: EdgeView| e.memory_id != id || e.invalid_at is Some,
        ) + filed_relations(id, relations, valid_from),
{
    other_memories_keep_their_rows(rows, edges, id);
}

/// Seeds are those of the candidates that the graph has, in their order.
pub proof fn seeds_are_the_known_candidates(
    keys: Seq<Seq<char>>,
    filed_keys: Seq<Seq<char>>,
    key: Seq<char>,
)
    ensures
        known_keys(keys, filed_keys) == keys.filter(|k: Seq<char>| filed_keys.contains(k)),
        known_keys(keys, filed_keys).contains(key) <==> keys.contains(key) && filed_keys.contains(
            key,
        ),
    decreases keys.len(),
{
    reveal(Seq::filter);
    let known = known_keys(keys, filed_keys);
    if keys.len() > 0 {
        let shorter = keys.drop_last();
        let earlier = known_keys(shorter, filed_keys);
        seeds_are_the_known_candidates(shorter, filed_keys, key);
        assert(keys[keys.len() - 1] == keys.last());
        if keys.contains(key) {
            let i = choose|i: int| 0 <= i < keys.len() && keys[i] == key;
            if i < shorter.len() {
                assert(shorter[i] == key);
            }
        }
        if shorter.contains(key) {
            let i = choose|i: int| 0 <= i < shorter.len() && shorter[i] == key;
            assert(keys[i] == key);
        }
        if earlier.contains(key) {
            let i = choose|i: int| 0 <= i < earlier.len() && earlier[i] == key;
            assert(known[i] == key);
        }
        if filed_keys.contains(keys.last()) {
            assert(known[earlier.len() as int] == keys.last());
        }
        if known.contains(key) {
            let i = choose|i: int| 0 <= i < known.len() && known[i] == key;
            if i < earlier.len() {
                assert(earlier[i] == key);
            }
        }
    }
}

/// An edge holds from the time that it is valid from on, until it is closed, and
/// a walk sees it so.
pub proof fn edges_hold_in_their_interval(edge: EdgeView, at: Timestamp)
    ensures
        edge.live_at(at) <==> !at.before(edge.valid_from) && (edge.invalid_at matches Some(end)
            ==> at.before(end)),
        edge.link().live_at(at) <==> edge.live_at(at),
        edge.link().subject == edge.subject && edge.link().object == edge.object,
        edge.link().memory_id == edge.memory_id.text(),
{
}

} // verus!
