//! The use cases over stores in memory.
use recuerdos_ai::memories::application::direct_memory_saver::{DirectMemorySaver, SaveStep};
use recuerdos_ai::memories::application::memory_exporter::{ExportFormat, MemoryExporter};
use recuerdos_ai::memories::application::memory_finder::MemoryFinder;
use recuerdos_ai::memories::application::memory_forgetter::{ForgetStep, MemoryForgetter};
use recuerdos_ai::memories::application::memory_recaller::{MemoryRecaller, RecallStep};
use recuerdos_ai::memories::application::memory_updater::{MemoryUpdater, UpdateStep};
use recuerdos_ai::memories::application::profile_assembler::{
    render, ProfileAssembler, CHARS_PER_TOKEN, DEFAULT_TOKEN_BUDGET, INCLUDE_INACTIVE, MAX_PER_CATEGORY,
};
use recuerdos_ai::memories::domain::category::Category;
use recuerdos_ai::memories::domain::embedder::EmbeddingTask;
use recuerdos_ai::memories::domain::entity_graph::Relation;
use recuerdos_ai::memories::domain::entity_key::EntityKey;
use recuerdos_ai::memories::domain::memory::{
    Entity, Memory, MemoryEdit, MemorySource, NewMemory,
};
use recuerdos_ai::memories::domain::memory_repository::{AuditEntry, AuditOperation};
use recuerdos_ai::memories::domain::recall_query::RecallQuery;
use recuerdos_ai::memories::domain::recall_ranker::{RecallRanker, ScoreTerms, ScoredMemory};
use recuerdos_ai::memories::infrastructure::graph_walk::{read_link, Link};
use recuerdos_ai::memories::infrastructure::sqlite_entity_graph::{edge_row, SqliteEntityGraph};
use recuerdos_ai::shared::error::{RaError, Result};
use recuerdos_ai::shared::ids::{MemoryId, UserId};
use recuerdos_ai::shared::time::Timestamp;
use std::collections::hash_map::DefaultHasher;
use std::collections::HashMap;
use std::hash::{Hash, Hasher};

const NOW: i64 = 1_700_000_000;
const DIMENSIONS: usize = 64;

fn at(seconds: i64) -> Timestamp {
    Timestamp::new(seconds, 0).unwrap()
}

fn now() -> Timestamp {
    at(NOW)
}

fn new_memory(content: &str) -> NewMemory {
    NewMemory {
        content: content.to_string(),
        category: Category::PreferenceCoding,
        subcategory: None,
        tags: vec![],
        entities: vec![],
        confidence: 1.0f32.to_bits(),
        source: MemorySource::default(),
        expires_at: None,
    }
}

/// Texts that share words come out close to each other.
fn embed_text(text: &str) -> Vec<f32> {
    let mut vector = vec![0.0f32; DIMENSIONS];
    for word in text
        .to_ascii_lowercase()
        .split(|c: char| !c.is_alphanumeric())
        .filter(|word| !word.is_empty())
    {
        let mut hasher = DefaultHasher::new();
        word.hash(&mut hasher);
        let hash = hasher.finish();
        vector[(hash % DIMENSIONS as u64) as usize] += 1.0;
        vector[((hash >> 32) % DIMENSIONS as u64) as usize] += 0.5;
    }
    let norm: f32 = vector.iter().map(|v| v * v).sum::<f32>().sqrt();
    if norm > 0.0 {
        for value in &mut vector {
            *value /= norm;
        }
    }
    vector
}

fn cosine(a: &[f32], b: &[f32]) -> f32 {
    a.iter().zip(b).map(|(x, y)| x * y).sum()
}

fn reciprocal_rank(rank: Option<usize>) -> f32 {
    match rank {
        Some(rank) => 1.0 / (60.0 + rank as f32),
        None => 0.0,
    }
}

fn score(terms: &ScoreTerms) -> f32 {
    let graph = match terms.graph {
        None => 0.0,
        Some(term) => {
            let weighed = f32::from_bits(terms.graph_weight) * reciprocal_rank(Some(term.rank));
            match term.cap {
                Some(cap) => weighed.min(reciprocal_rank(Some(cap))),
                None => weighed,
            }
        }
    };
    let floored = |value: f32| 0.8 + 0.2 * value.clamp(0.0, 1.0);
    let half_life = terms.half_life_days.map_or(f32::INFINITY, |days| days as f32);
    let age_days = terms.age_seconds as f32 / 86_400.0;
    (reciprocal_rank(terms.vector_rank) + reciprocal_rank(terms.bm25_rank) + graph)
        * floored(0.5f32.powf(age_days / half_life))
        * floored(f32::from_bits(terms.confidence) * f32::from_bits(terms.importance))
}

struct Store {
    memories: Vec<Memory>,
    deleted: Vec<MemoryId>,
    audit: Vec<AuditEntry>,
    vectors: HashMap<(UserId, MemoryId), Vec<f32>>,
    text: HashMap<(UserId, MemoryId), String>,
    entities: HashMap<UserId, Vec<EntityKey>>,
    links: HashMap<UserId, Vec<Link>>,
    fail_embedding: bool,
    fail_vector: bool,
    fail_text: bool,
    fail_search: bool,
    alex: UserId,
    sam: UserId,
}

impl Store {
    fn new() -> Self {
        Self {
            memories: Vec::new(),
            deleted: Vec::new(),
            audit: Vec::new(),
            vectors: HashMap::new(),
            text: HashMap::new(),
            entities: HashMap::new(),
            links: HashMap::new(),
            fail_embedding: false,
            fail_vector: false,
            fail_text: false,
            fail_search: false,
            alex: UserId::new(),
            sam: UserId::new(),
        }
    }

    fn embed(&mut self, text: &str) -> Result<Vec<Vec<u32>>> {
        if self.fail_embedding {
            self.fail_embedding = false;
            return Err(RaError::Internal("injected embedding failure".to_string()));
        }
        Ok(vec![embed_text(text).iter().map(|v| v.to_bits()).collect()])
    }

    fn record(&mut self, id: MemoryId, operation: AuditOperation, actor: &str, detail: &str) {
        self.audit.push(AuditEntry {
            memory_id: id,
            operation,
            actor: actor.to_string(),
            detail: detail.to_string(),
            at: now(),
        });
    }

    fn insert(&mut self, memory: &Memory, actor: &str) -> Result<()> {
        self.memories.push(memory.clone());
        self.record(memory.id(), AuditOperation::Add, actor, "");
        Ok(())
    }

    fn find(&self, user: UserId, id: MemoryId) -> Option<Memory> {
        self.memories
            .iter()
            .find(|m| m.id() == id && m.user_id() == user && !self.deleted.contains(&id))
            .cloned()
    }

    fn update(&mut self, user: UserId, memory: &Memory, actor: &str) -> Result<()> {
        if self.find(user, memory.id()).is_none() {
            return Err(RaError::NotFound("no such memory".to_string()));
        }
        for slot in self.memories.iter_mut() {
            if slot.id() == memory.id() {
                *slot = memory.clone();
            }
        }
        self.record(memory.id(), AuditOperation::Update, actor, "");
        Ok(())
    }

    fn delete(&mut self, user: UserId, id: MemoryId, actor: &str, detail: &str) -> Result<()> {
        if self.find(user, id).is_none() {
            return Err(RaError::NotFound("no such memory".to_string()));
        }
        self.deleted.push(id);
        self.record(id, AuditOperation::Delete, actor, detail);
        Ok(())
    }

    fn list(&self, user: UserId, include_inactive: bool) -> Vec<Memory> {
        self.memories
            .iter()
            .filter(|m| {
                m.user_id() == user
                    && !self.deleted.contains(&m.id())
                    && (include_inactive || !m.is_superseded())
            })
            .cloned()
            .collect()
    }

    fn upsert_vector(&mut self, user: UserId, id: MemoryId, bits: &[u32]) -> Result<()> {
        if self.fail_vector {
            self.fail_vector = false;
            return Err(RaError::Internal("injected vector failure".to_string()));
        }
        self.vectors
            .insert((user, id), bits.iter().map(|b| f32::from_bits(*b)).collect());
        Ok(())
    }

    fn has_vector(&self, id: MemoryId) -> bool {
        self.vectors.keys().any(|(_, m)| *m == id)
    }

    fn has_text(&self, id: MemoryId) -> bool {
        self.text.keys().any(|(_, m)| *m == id)
    }

    fn upsert_text(&mut self, user: UserId, memory: &Memory) -> Result<()> {
        if self.fail_text {
            self.fail_text = false;
            return Err(RaError::Internal("injected text index failure".to_string()));
        }
        let haystack = format!(
            "{} {} {}",
            memory.content(),
            memory.tags().join(" "),
            memory.category().as_str()
        )
        .to_ascii_lowercase();
        self.text.insert((user, memory.id()), haystack);
        Ok(())
    }

    fn search_vectors(&self, user: UserId, bits: &[u32], limit: usize) -> Vec<MemoryId> {
        let wanted: Vec<f32> = bits.iter().map(|b| f32::from_bits(*b)).collect();
        let mut scored: Vec<(MemoryId, f32)> = self
            .vectors
            .iter()
            .filter(|((owner, _), _)| *owner == user)
            .map(|((_, id), stored)| (*id, cosine(&wanted, stored)))
            .collect();
        scored.sort_by(|a, b| b.1.total_cmp(&a.1).then(a.0.value.cmp(&b.0.value)));
        scored.truncate(limit);
        scored.into_iter().map(|(id, _)| id).collect()
    }

    fn search_text(&mut self, user: UserId, query: &str, limit: usize) -> Result<Vec<MemoryId>> {
        if self.fail_search {
            self.fail_search = false;
            return Err(RaError::Internal("injected search failure".to_string()));
        }
        let query = query.to_ascii_lowercase();
        let mut scored: Vec<(MemoryId, usize)> = self
            .text
            .iter()
            .filter(|((owner, _), _)| *owner == user)
            .map(|((_, id), haystack)| {
                let hits = query.split_whitespace().filter(|word| haystack.contains(word));
                (*id, hits.count())
            })
            .filter(|(_, hits)| *hits > 0)
            .collect();
        scored.sort_by(|a, b| b.1.cmp(&a.1).then(a.0.value.cmp(&b.0.value)));
        scored.truncate(limit);
        Ok(scored.into_iter().map(|(id, _)| id).collect())
    }

    fn execute_save(&mut self, user: UserId, new: NewMemory, actor: &str) -> Result<Memory> {
        let saver = DirectMemorySaver::new();
        let mut step = saver.begin(user, new, now());
        loop {
            step = match step {
                SaveStep::Embed { memory, task } => {
                    assert_eq!(task, EmbeddingTask::Document);
                    let reply = self.embed(memory.content());
                    saver.embedded(memory, reply)
                }
                SaveStep::Insert { memory, embedding } => {
                    let reply = self.insert(&memory, actor);
                    saver.inserted(memory, embedding, reply)
                }
                SaveStep::UpsertVector { memory, embedding } => {
                    let reply = self.upsert_vector(user, memory.id(), &embedding);
                    saver.vector_written(memory, reply)
                }
                SaveStep::RollBack {
                    memory,
                    detail,
                    error,
                } => {
                    let reply = self.delete(user, memory.id(), actor, detail);
                    saver.rolled_back(error, reply)
                }
                SaveStep::UpsertText { memory } => {
                    let reply = self.upsert_text(user, &memory);
                    saver.text_written(memory, reply)
                }
                SaveStep::Done(result) => return result,
            };
        }
    }

    fn save(&mut self, user: UserId, content: &str) -> Memory {
        self.execute_save(user, new_memory(content), "test").unwrap()
    }

    fn execute_update(
        &mut self,
        user: UserId,
        id: MemoryId,
        edit: MemoryEdit,
        actor: &str,
    ) -> Result<Memory> {
        let updater = MemoryUpdater::new();
        let mut pending = Some(edit);
        let mut step = updater.begin(id);
        loop {
            step = match step {
                UpdateStep::Find { id } => {
                    let reply = Ok(self.find(user, id));
                    updater.found(id, pending.take().unwrap(), now(), reply)
                }
                UpdateStep::Update {
                    memory,
                    content_changed,
                } => {
                    let reply = self.update(user, &memory, actor);
                    updater.updated(memory, content_changed, reply)
                }
                UpdateStep::Embed { memory, task } => {
                    assert_eq!(task, EmbeddingTask::Document);
                    let reply = self.embed(memory.content());
                    updater.embedded(memory, reply)
                }
                UpdateStep::UpsertVector { memory, embedding } => {
                    let reply = self.upsert_vector(user, memory.id(), &embedding);
                    updater.vector_written(memory, reply)
                }
                UpdateStep::UpsertText { memory } => {
                    let reply = self.upsert_text(user, &memory);
                    updater.text_written(memory, reply)
                }
                UpdateStep::Done(result) => return result,
            };
        }
    }

    fn execute_forget(&mut self, user: UserId, id: MemoryId, actor: &str) -> Result<()> {
        let forgetter = MemoryForgetter::new();
        let mut step = forgetter.begin(id);
        loop {
            step = match step {
                ForgetStep::Delete { id } => {
                    let reply = self.delete(user, id, actor, "");
                    forgetter.deleted(id, reply)
                }
                ForgetStep::RemoveVector { id } => {
                    self.vectors.remove(&(user, id));
                    forgetter.vector_removed(id, Ok(()))
                }
                ForgetStep::RemoveText { id } => {
                    self.text.remove(&(user, id));
                    forgetter.text_removed(Ok(()))
                }
                ForgetStep::Done(result) => return result,
            };
        }
    }

    fn recall_with(
        &mut self,
        recaller: &MemoryRecaller,
        user: UserId,
        query: &RecallQuery,
    ) -> Result<Vec<ScoredMemory>> {
        let graph = SqliteEntityGraph::new();
        let mut step = recaller.begin(query);
        loop {
            step = match step {
                RecallStep::Embed { text, task } => {
                    assert_eq!(task, EmbeddingTask::Query);
                    let reply = self.embed(&text);
                    recaller.embedded(query, reply)
                }
                RecallStep::SearchVectors { embedding, depth } => {
                    let reply = Ok(self.search_vectors(user, &embedding, depth));
                    recaller.vectors_found(query, reply)
                }
                RecallStep::SearchText { text, depth, legs } => {
                    let reply = self.search_text(user, &text, depth);
                    recaller.text_found(query, legs, reply)
                }
                RecallStep::FindSeeds { keys, legs } => {
                    let none = Vec::new();
                    let rows = self.entities.get(&user).unwrap_or(&none);
                    recaller.seeds_found(query, legs, Ok(graph.seeds(rows, &keys)))
                }
                RecallStep::Walk {
                    seeds,
                    hops,
                    as_of,
                    limit,
                    legs,
                } => {
                    let none = Vec::new();
                    let links = self.links.get(&user).unwrap_or(&none);
                    let found = graph.neighbours(links, &seeds, hops, as_of, now(), limit);
                    recaller.walked(legs, found)
                }
                RecallStep::Fetch { ids, legs } => {
                    let found: Vec<Memory> =
                        ids.iter().filter_map(|id| self.find(user, *id)).collect();
                    recaller.fetched(query, now(), legs, Ok(found))
                }
                RecallStep::Score {
                    candidates,
                    terms,
                    legs,
                } => {
                    let scores: Vec<u32> = terms.iter().map(|t| score(t).to_bits()).collect();
                    recaller.scored(query, now(), legs, candidates, scores)
                }
                RecallStep::Touch { ids, at, ranked } => {
                    for slot in self.memories.iter_mut() {
                        if ids.contains(&slot.id()) && slot.user_id() == user {
                            *slot = slot.clone().mark_accessed(at);
                        }
                    }
                    recaller.touched(ranked, Ok(()))
                }
                RecallStep::Done(result) => return result,
            };
        }
    }

    fn recall(&mut self, user: UserId, query: &RecallQuery) -> Vec<ScoredMemory> {
        let recaller = MemoryRecaller::new(RecallRanker::new(90), false, 0, 0);
        self.recall_with(&recaller, user, query).unwrap()
    }

    fn recall_over_graph(&mut self, user: UserId, query: &RecallQuery) -> Vec<ScoredMemory> {
        let recaller = MemoryRecaller::new(RecallRanker::new(90), true, 2, 20);
        self.recall_with(&recaller, user, query).unwrap()
    }

    fn record_graph(
        &mut self,
        user: UserId,
        id: MemoryId,
        entities: Vec<Entity>,
        relations: Vec<Relation>,
    ) {
        let graph = SqliteEntityGraph::new();
        let rows = graph.replace_entities(&entities);
        let keys = self.entities.entry(user).or_default();
        keys.extend(rows.into_iter().map(|row| row.key));
        let links = self.links.entry(user).or_default();
        for edge in graph.replace_open_relations(id, &relations, now()) {
            let row = edge_row(&edge);
            links.push(read_link(
                row.memory_id,
                row.subject_key,
                row.object_key,
                row.valid_from,
                row.invalid_at,
            ));
        }
    }

    /// A memory whose only way into a recall is the graph.
    fn graph_only(&mut self, user: UserId, content: &str) -> Memory {
        let memory = Memory::create(user, new_memory(content), now()).unwrap();
        self.insert(&memory, "test").unwrap();
        memory
    }

    fn export(&self, user: UserId, format: ExportFormat, include_inactive: bool) -> String {
        let memories = self.list(user, include_inactive);
        let confidences: Vec<serde_json::Value> = memories
            .iter()
            .map(|m| serde_json::Value::from(f32::from_bits(m.confidence())))
            .collect();
        MemoryExporter::new().execute("alex", format, &memories, confidences)
    }

    fn profile(&self, user: UserId) -> String {
        ProfileAssembler::new()
            .execute("alex", now(), Ok(self.list(user, INCLUDE_INACTIVE)))
            .unwrap()
    }

    fn save_in(&mut self, category: Category, content: &str) {
        let mut memory = new_memory(content);
        memory.category = category;
        let alex = self.alex;
        self.execute_save(alex, memory, "test").unwrap();
    }
}

// ---- saving ----

#[test]
fn stores_a_memory_and_indexes_it_in_both_legs() {
    let mut store = Store::new();
    let alex = store.alex;

    let memory = store
        .execute_save(alex, new_memory("User prefers pnpm"), "test")
        .unwrap();

    assert_eq!(
        store.find(alex, memory.id()).unwrap().content(),
        "User prefers pnpm"
    );
    assert!(store.has_vector(memory.id()));
    assert!(store.has_text(memory.id()));
}

#[test]
fn a_failed_vector_write_leaves_no_orphaned_memory() {
    let mut store = Store::new();
    let alex = store.alex;
    store.fail_vector = true;

    let error = store
        .execute_save(alex, new_memory("User prefers pnpm"), "test")
        .unwrap_err();

    assert!(matches!(error, RaError::Internal(_)), "got {error:?}");
    assert!(
        store.list(alex, true).is_empty(),
        "the memory row should have been rolled back"
    );
    assert!(store
        .audit
        .iter()
        .any(|entry| entry.detail == "rolled back: the vector index write failed"));
}

#[test]
fn a_failed_embedding_writes_nothing_at_all() {
    let mut store = Store::new();
    let alex = store.alex;
    store.fail_embedding = true;

    assert!(store
        .execute_save(alex, new_memory("User prefers pnpm"), "test")
        .is_err());

    assert!(store.list(alex, true).is_empty());
    assert!(store.vectors.is_empty());
}

#[test]
fn a_failed_text_index_write_still_stores_the_memory() {
    let mut store = Store::new();
    let alex = store.alex;
    store.fail_text = true;

    let memory = store
        .execute_save(alex, new_memory("User prefers pnpm"), "test")
        .unwrap();

    assert!(store.find(alex, memory.id()).is_some());
    assert!(store.has_vector(memory.id()));
    assert!(!store.has_text(memory.id()));
}

#[test]
fn rejects_invalid_content_before_touching_any_store() {
    let mut store = Store::new();
    let alex = store.alex;

    assert!(store.execute_save(alex, new_memory("   "), "test").is_err());

    assert!(store.list(alex, true).is_empty());
    assert!(store.vectors.is_empty());
}

#[test]
fn the_memory_belongs_to_the_authenticated_user() {
    let mut store = Store::new();
    let (alex, sam) = (store.alex, store.sam);

    let memory = store
        .execute_save(alex, new_memory("alex's memory"), "test")
        .unwrap();

    assert_eq!(memory.user_id(), alex);
    assert!(
        store.find(sam, memory.id()).is_none(),
        "another user could read it"
    );
}

// ---- finding ----

#[test]
fn finds_the_callers_own_memory() {
    let mut store = Store::new();
    let alex = store.alex;
    let memory = store.save(alex, "a note");

    let found = MemoryFinder::new()
        .found(memory.id(), Ok(store.find(alex, memory.id())))
        .unwrap();

    assert_eq!(found.id(), memory.id());
}

#[test]
fn a_missing_memory_is_not_found() {
    let store = Store::new();
    let id = MemoryId::new();
    assert!(matches!(
        MemoryFinder::new().found(id, Ok(store.find(store.alex, id))),
        Err(RaError::NotFound(_))
    ));
}

#[test]
fn another_users_memory_is_indistinguishable_from_a_missing_one() {
    let mut store = Store::new();
    let (alex, sam) = (store.alex, store.sam);
    let memory = store.save(alex, "alex's note");

    let existing_other_user =
        MemoryFinder::new().found(memory.id(), Ok(store.find(sam, memory.id())));
    let missing = MemoryId::new();
    let genuinely_missing = MemoryFinder::new().found(missing, Ok(store.find(sam, missing)));

    assert!(matches!(existing_other_user, Err(RaError::NotFound(_))));
    assert!(matches!(genuinely_missing, Err(RaError::NotFound(_))));
    assert_eq!(
        existing_other_user.unwrap_err().message(),
        format!("memory {} not found", memory.id().to_text())
    );
}

// ---- forgetting ----

#[test]
fn forgetting_removes_a_memory_from_recall_and_both_indexes() {
    let mut store = Store::new();
    let alex = store.alex;
    let memory = store.save(alex, "a note about pnpm");

    store.execute_forget(alex, memory.id(), "test").unwrap();

    assert!(store
        .recall(alex, &RecallQuery::new("pnpm", 5).unwrap())
        .is_empty());
    assert!(!store.has_vector(memory.id()));
    assert!(!store.has_text(memory.id()));
}

#[test]
fn the_deletion_is_recorded_in_the_audit_trail() {
    let mut store = Store::new();
    let alex = store.alex;
    let memory = store.save(alex, "a note");

    store.execute_forget(alex, memory.id(), "mcp").unwrap();

    assert!(
        store.audit.iter().any(|entry| entry.memory_id == memory.id()
            && entry.operation == AuditOperation::Delete
            && entry.actor == "mcp"),
        "the deletion is missing from the trail: {:?}",
        store.audit
    );
}

#[test]
fn cannot_forget_another_users_memory() {
    let mut store = Store::new();
    let (alex, sam) = (store.alex, store.sam);
    let memory = store.save(alex, "alex's note about pnpm");

    let result = store.execute_forget(sam, memory.id(), "sam");

    assert!(matches!(result, Err(RaError::NotFound(_))));
    assert!(
        store.find(alex, memory.id()).is_some(),
        "the memory should be untouched"
    );
    assert!(
        store.has_vector(memory.id()),
        "a rejected delete must not strip the index"
    );
}

#[test]
fn forgetting_a_missing_memory_is_not_found() {
    let mut store = Store::new();
    let alex = store.alex;
    assert!(matches!(
        store.execute_forget(alex, MemoryId::new(), "test"),
        Err(RaError::NotFound(_))
    ));
}

// ---- updating ----

fn content_edit(content: &str) -> MemoryEdit {
    MemoryEdit {
        content: Some(content.to_string()),
        ..Default::default()
    }
}

#[test]
fn updates_the_content_and_bumps_updated_at() {
    let mut store = Store::new();
    let alex = store.alex;
    let memory = store.save(alex, "original");

    let updated = store
        .execute_update(alex, memory.id(), content_edit("revised"), "test")
        .unwrap();

    assert_eq!(updated.content(), "revised");
    assert_eq!(updated.created_at(), memory.created_at());
    assert_eq!(updated.updated_at(), now());
}

#[test]
fn an_edited_memory_is_recalled_by_its_new_wording() {
    let mut store = Store::new();
    let alex = store.alex;
    let memory = store.save(alex, "deploys on flyio");

    store
        .execute_update(alex, memory.id(), content_edit("deploys on hetzner"), "test")
        .unwrap();

    let results = store.recall(alex, &RecallQuery::new("hetzner", 5).unwrap());

    assert_eq!(results.len(), 1, "the new wording should be findable");
    assert_eq!(results[0].memory.content(), "deploys on hetzner");
}

#[test]
fn a_tag_only_edit_does_not_re_embed() {
    let mut store = Store::new();
    let alex = store.alex;
    let memory = store.save(alex, "unchanged content");

    store.fail_embedding = true;

    let updated = store
        .execute_update(
            alex,
            memory.id(),
            MemoryEdit {
                tags: Some(vec!["added".to_string()]),
                ..Default::default()
            },
            "test",
        )
        .unwrap();

    assert_eq!(updated.tags(), &["added".to_string()]);
}

#[test]
fn can_change_the_category() {
    let mut store = Store::new();
    let alex = store.alex;
    let memory = store.save(alex, "we chose sqlite");

    let updated = store
        .execute_update(
            alex,
            memory.id(),
            MemoryEdit {
                category: Some(Category::Decision),
                ..Default::default()
            },
            "test",
        )
        .unwrap();

    assert_eq!(updated.category(), &Category::Decision);
}

#[test]
fn cannot_update_another_users_memory() {
    let mut store = Store::new();
    let (alex, sam) = (store.alex, store.sam);
    let memory = store.save(alex, "alex's memory");

    let result = store.execute_update(sam, memory.id(), content_edit("hijacked"), "sam");

    assert!(matches!(result, Err(RaError::NotFound(_))));
    assert_eq!(store.find(alex, memory.id()).unwrap().content(), "alex's memory");
}

#[test]
fn rejects_an_invalid_edit() {
    let mut store = Store::new();
    let alex = store.alex;
    let memory = store.save(alex, "original");

    assert!(store
        .execute_update(alex, memory.id(), content_edit("   "), "test")
        .is_err());
    assert_eq!(store.find(alex, memory.id()).unwrap().content(), "original");
}

#[test]
fn updating_a_missing_memory_is_not_found() {
    let mut store = Store::new();
    let alex = store.alex;
    assert!(matches!(
        store.execute_update(alex, MemoryId::new(), content_edit("x"), "test"),
        Err(RaError::NotFound(_))
    ));
}

// ---- recalling ----

fn query(text: &str) -> RecallQuery {
    RecallQuery::new(text, 10).unwrap()
}

fn contents(results: &[ScoredMemory]) -> Vec<&str> {
    results.iter().map(|s| s.memory.content()).collect()
}

fn ids(results: &[ScoredMemory]) -> Vec<MemoryId> {
    results.iter().map(|s| s.memory.id()).collect()
}

fn entity(name: &str, kind: &str) -> Entity {
    Entity {
        name: name.to_string(),
        kind: kind.to_string(),
    }
}

fn rel(subject: &str, predicate: &str, object: &str) -> Relation {
    Relation {
        subject: subject.to_string(),
        predicate: predicate.to_string(),
        object: object.to_string(),
    }
}

#[test]
fn recalls_a_memory_by_a_paraphrase_of_its_words() {
    let mut store = Store::new();
    let alex = store.alex;
    store.save(alex, "User prefers pnpm as their package manager");
    store.save(alex, "The cat sat on the mat");

    let results = store.recall(alex, &query("which package manager does the user prefer"));

    assert_eq!(
        contents(&results).first(),
        Some(&"User prefers pnpm as their package manager")
    );
}

#[test]
fn recall_never_returns_another_users_memories() {
    let mut store = Store::new();
    let (alex, sam) = (store.alex, store.sam);
    store.save(alex, "alex prefers pnpm");
    store.save(sam, "sam prefers pnpm");

    let results = store.recall(alex, &query("pnpm"));

    assert_eq!(contents(&results), vec!["alex prefers pnpm"]);
}

#[test]
fn filters_by_category() {
    let mut store = Store::new();
    let alex = store.alex;
    store.save_in(
        Category::Decision,
        "We chose SQLite over Postgres for installer size",
    );
    store.save(alex, "We chose pnpm over npm for speed");

    let results = store.recall(
        alex,
        &query("we chose").with_categories(vec![Category::Decision]),
    );

    assert_eq!(results.len(), 1);
    assert_eq!(results[0].memory.category(), &Category::Decision);
}

#[test]
fn filters_by_tag_requiring_all_of_them() {
    let mut store = Store::new();
    let alex = store.alex;
    let mut both = new_memory("uses typescript with react");
    both.tags = vec!["typescript".to_string(), "react".to_string()];
    store.execute_save(alex, both, "test").unwrap();

    let mut one = new_memory("uses typescript on the server");
    one.tags = vec!["typescript".to_string()];
    store.execute_save(alex, one, "test").unwrap();

    let results = store.recall(
        alex,
        &query("uses typescript").with_tags(vec!["typescript".to_string(), "react".to_string()]),
    );

    assert_eq!(contents(&results), vec!["uses typescript with react"]);
}

#[test]
fn filters_by_creation_time() {
    let mut store = Store::new();
    let alex = store.alex;
    store.save(alex, "a memory about pnpm");

    let after = store.recall(alex, &query("pnpm").with_since(Some(at(NOW + 86_400))));
    assert!(after.is_empty());

    let before = store.recall(alex, &query("pnpm").with_since(Some(at(NOW - 86_400))));
    assert_eq!(before.len(), 1);
}

#[test]
fn memory_recaller_superseded_memories_are_excluded_unless_requested() {
    let mut store = Store::new();
    let alex = store.alex;
    let old = store.save(alex, "deploys on flyio");
    let new = store.save(alex, "deploys on hetzner");

    let superseded = old.clone().supersede(new.id(), now());
    store.update(alex, &superseded, "test").unwrap();

    let default = store.recall(alex, &query("deploys"));
    assert_eq!(contents(&default), vec!["deploys on hetzner"]);

    let including = store.recall(alex, &query("deploys").including_superseded());
    assert_eq!(including.len(), 2);
}

#[test]
fn expired_memories_are_excluded() {
    let mut store = Store::new();
    let alex = store.alex;
    let mut expiring = new_memory("a temporary note about pnpm");
    expiring.expires_at = Some(at(NOW + 3_600));
    store.execute_save(alex, expiring, "test").unwrap();

    assert_eq!(store.recall(alex, &query("pnpm")).len(), 1);
}

#[test]
fn deleted_memories_are_not_recalled() {
    let mut store = Store::new();
    let alex = store.alex;
    let memory = store.save(alex, "a note about pnpm");
    store.delete(alex, memory.id(), "test", "").unwrap();

    assert!(store.recall(alex, &query("pnpm")).is_empty());
}

#[test]
fn respects_the_limit() {
    let mut store = Store::new();
    let alex = store.alex;
    for index in 0..5 {
        store.save(alex, &format!("note number {index} about pnpm"));
    }

    let results = store.recall(alex, &RecallQuery::new("pnpm", 2).unwrap());

    assert_eq!(results.len(), 2);
}

#[test]
fn an_empty_store_returns_nothing() {
    let mut store = Store::new();
    let alex = store.alex;
    assert!(store.recall(alex, &query("anything")).is_empty());
}

#[test]
fn recall_survives_a_keyword_index_failure() {
    let mut store = Store::new();
    let alex = store.alex;
    store.save(alex, "User prefers pnpm");
    store.fail_search = true;

    let results = store.recall(alex, &query("pnpm"));

    assert_eq!(results.len(), 1);
}

#[test]
fn recall_without_a_query_vector_is_an_error() {
    let mut store = Store::new();
    let alex = store.alex;
    store.fail_embedding = true;
    let recaller = MemoryRecaller::new(RecallRanker::new(90), false, 0, 0);

    let error = store.recall_with(&recaller, alex, &query("pnpm")).unwrap_err();

    assert!(matches!(error, RaError::Internal(_)), "got {error:?}");
}

#[test]
fn recall_records_that_the_returned_memories_were_accessed() {
    let mut store = Store::new();
    let alex = store.alex;
    let memory = store.save(alex, "a note about pnpm");
    assert_eq!(store.find(alex, memory.id()).unwrap().last_accessed_at(), None);

    store.recall(alex, &query("pnpm"));

    assert_eq!(
        store.find(alex, memory.id()).unwrap().last_accessed_at(),
        Some(now())
    );
}

#[test]
fn filters_by_subcategory_returns_only_matching() {
    let mut store = Store::new();
    let alex = store.alex;
    let mut testing = new_memory("uses vitest for unit tests");
    testing.subcategory = Some("testing".to_string());
    store.execute_save(alex, testing, "test").unwrap();

    let mut linting = new_memory("uses eslint for code quality");
    linting.subcategory = Some("linting".to_string());
    store.execute_save(alex, linting, "test").unwrap();

    let results = store.recall(
        alex,
        &query("code").with_subcategories(vec!["testing".to_string()]),
    );

    assert_eq!(results.len(), 1);
    assert_eq!(results[0].memory.subcategory(), Some("testing"));
}

#[test]
fn results_carry_how_they_were_matched() {
    let mut store = Store::new();
    let alex = store.alex;
    store.save(alex, "User prefers pnpm");

    let results = store.recall(alex, &query("pnpm"));

    let detail = results[0].match_detail;
    assert!(
        detail.vector_rank.is_some() || detail.bm25_rank.is_some(),
        "a result should say which leg found it"
    );
    assert!(f32::from_bits(results[0].score) > 0.0);
}

#[test]
fn a_two_hop_memory_neither_text_leg_ranks_enters_recall_over_the_graph() {
    let mut store = Store::new();
    let alex = store.alex;

    let owns = store.graph_only(
        alex,
        "the billing service is maintained by the Meridian team",
    );
    let leads = store.graph_only(alex, "Nadia leads the Meridian team");

    store.record_graph(
        alex,
        owns.id(),
        vec![
            entity("billing service", "service"),
            entity("Meridian team", "team"),
        ],
        vec![rel("billing service", "maintained_by", "Meridian team")],
    );
    store.record_graph(
        alex,
        leads.id(),
        vec![entity("Nadia", "person"), entity("Meridian team", "team")],
        vec![rel("Nadia", "leads", "Meridian team")],
    );

    let results = store.recall_over_graph(
        alex,
        &RecallQuery::new("who runs the billing service", 5).unwrap(),
    );

    let leads_hit = results
        .iter()
        .find(|s| s.memory.id() == leads.id())
        .expect("the two-hop memory should reach recall over the graph");
    assert!(
        leads_hit.match_detail.graph_rank.is_some(),
        "it entered only as a graph hit"
    );
    assert_eq!(
        leads_hit.match_detail.vector_rank, None,
        "no vector entry was indexed for it"
    );
    assert_eq!(
        leads_hit.match_detail.bm25_rank, None,
        "no keyword entry was indexed for it"
    );
}

#[test]
fn the_graph_leg_never_crosses_users() {
    let mut store = Store::new();
    let (alex, sam) = (store.alex, store.sam);

    let alex_memory = store.graph_only(alex, "alex's note about the shared service");
    let sam_memory = store.graph_only(sam, "sam's note about the shared service");
    store.record_graph(
        alex,
        alex_memory.id(),
        vec![
            entity("shared service", "service"),
            entity("alex thing", "thing"),
        ],
        vec![rel("shared service", "relates_to", "alex thing")],
    );
    store.record_graph(
        sam,
        sam_memory.id(),
        vec![
            entity("shared service", "service"),
            entity("sam thing", "thing"),
        ],
        vec![rel("shared service", "relates_to", "sam thing")],
    );

    let results =
        store.recall_over_graph(alex, &RecallQuery::new("the shared service", 5).unwrap());

    let found = ids(&results);
    assert!(
        found.contains(&alex_memory.id()),
        "alex's own edge is reachable"
    );
    assert!(
        !found.contains(&sam_memory.id()),
        "the hop crossed into another user's rows"
    );
}

#[test]
fn a_query_naming_no_known_entity_leaves_recall_its_two_leg_self() {
    let mut store = Store::new();
    let alex = store.alex;

    let memory = store.save(alex, "User prefers pnpm as their package manager");
    store.record_graph(alex, memory.id(), vec![entity("pnpm", "tool")], vec![]);

    let question = query("which package manager keeps dependencies tidy");
    let with_graph = store.recall_over_graph(alex, &question);
    let without_graph = store.recall(alex, &question);

    assert_eq!(
        ids(&with_graph),
        ids(&without_graph),
        "an unseeded graph leg changed the ranking"
    );
    assert!(
        with_graph.iter().all(|s| s.match_detail.graph_rank.is_none()),
        "nothing should carry a graph rank when the query names no entity"
    );
}

#[test]
fn seeds_are_looked_up_by_their_canonical_names() {
    let mut store = Store::new();
    let alex = store.alex;
    let memory = store.graph_only(alex, "x");
    store.record_graph(alex, memory.id(), vec![entity("Fly.io", "service")], vec![]);

    let seeds = SqliteEntityGraph::new().seeds(
        &store.entities[&alex],
        &vec![EntityKey::new("FLY.IO."), EntityKey::new("fly.io"), EntityKey::new("other")],
    );

    assert_eq!(seeds.len(), 1);
    assert_eq!(seeds[0].as_str(), "fly.io");
}

// ---- exporting ----

#[test]
fn markdown_groups_memories_by_category() {
    let mut store = Store::new();
    let alex = store.alex;
    store.save_in(Category::Decision, "We chose SQLite over Postgres");
    store.save(alex, "User prefers pnpm");

    let markdown = store.export(alex, ExportFormat::Markdown, false);

    assert!(markdown.contains("## decision"), "{markdown}");
    assert!(markdown.contains("## preference.coding"), "{markdown}");
    assert!(markdown.contains("We chose SQLite over Postgres"));
    assert!(markdown.contains("User prefers pnpm"));
}

#[test]
fn markdown_is_greppable_one_memory_per_line() {
    let mut store = Store::new();
    let alex = store.alex;
    store.save(alex, "a memory\nspanning two lines");

    let markdown = store.export(alex, ExportFormat::Markdown, false);

    assert!(
        markdown.contains("- a memory spanning two lines"),
        "newlines inside content would break line-based tools: {markdown}"
    );
}

#[test]
fn json_export_round_trips_through_a_parser() {
    let mut store = Store::new();
    let alex = store.alex;
    let memory = store.save(alex, "User prefers pnpm");

    let json = store.export(alex, ExportFormat::Json, false);

    let parsed: serde_json::Value = serde_json::from_str(&json).unwrap();
    let items = parsed["memories"].as_array().unwrap();
    assert_eq!(items.len(), 1);
    assert_eq!(items[0]["id"], memory.id().to_text());
    assert_eq!(items[0]["content"], "User prefers pnpm");
    assert_eq!(items[0]["category"], "preference.coding");
    assert_eq!(items[0]["confidence"], 1.0);
    assert!(items[0]["superseded_by"].is_null());
}

#[test]
fn export_contains_only_the_callers_memories() {
    let mut store = Store::new();
    let (alex, sam) = (store.alex, store.sam);
    store.save(alex, "alex's private memory");
    store.save(sam, "sam's private memory");

    let markdown = store.export(alex, ExportFormat::Markdown, false);

    assert!(markdown.contains("alex's private memory"));
    assert!(
        !markdown.contains("sam's private memory"),
        "export leaked another user's memories"
    );
}

#[test]
fn memory_exporter_superseded_memories_are_excluded_unless_requested() {
    let mut store = Store::new();
    let alex = store.alex;
    let old = store.save(alex, "deploys on flyio");
    let new = store.save(alex, "deploys on hetzner");
    store
        .update(alex, &old.clone().supersede(new.id(), now()), "test")
        .unwrap();

    let active = store.export(alex, ExportFormat::Markdown, false);
    assert!(!active.contains("flyio"));

    let everything = store.export(alex, ExportFormat::Markdown, true);
    assert!(everything.contains("flyio"));
    assert!(everything.contains("superseded"));
}

#[test]
fn exporting_nothing_is_valid_output_not_an_error() {
    let store = Store::new();

    let markdown = store.export(store.alex, ExportFormat::Markdown, false);
    assert!(markdown.contains("0 memories"));

    let json = store.export(store.alex, ExportFormat::Json, false);
    let parsed: serde_json::Value = serde_json::from_str(&json).unwrap();
    assert!(parsed["memories"].as_array().unwrap().is_empty());
}

// ---- the profile ----

#[test]
fn groups_memories_under_readable_headings() {
    let mut store = Store::new();
    store.save_in(Category::PreferenceCoding, "Prefers pnpm; never npm");
    store.save_in(
        Category::Decision,
        "SQLite over Postgres for installer size",
    );

    let profile = store.profile(store.alex);

    assert!(profile.starts_with("# Memory profile: alex"), "{profile}");
    assert!(profile.contains("## Coding preferences"), "{profile}");
    assert!(profile.contains("- Prefers pnpm; never npm"), "{profile}");
    assert!(profile.contains("## Decisions"), "{profile}");
}

#[test]
fn preferences_come_before_facts() {
    let mut store = Store::new();
    store.save_in(Category::FactProject, "the api is written in rust");
    store.save_in(Category::PreferenceCoding, "prefers pnpm");

    let profile = store.profile(store.alex);

    let preferences = profile.find("## Coding preferences").unwrap();
    let facts = profile.find("## Project facts").unwrap();
    assert!(preferences < facts, "{profile}");
}

#[test]
fn an_empty_profile_says_what_to_do_rather_than_nothing() {
    let store = Store::new();

    let profile = store.profile(store.alex);

    assert!(profile.contains("No memories stored yet"), "{profile}");
    assert!(
        profile.contains("memory_save"),
        "an empty profile should point at the tool that fills it: {profile}"
    );
}

#[test]
fn contains_only_the_callers_memories() {
    let mut store = Store::new();
    let (alex, sam) = (store.alex, store.sam);
    store.save(alex, "alex's private preference");
    store.save(sam, "sam's private preference");

    let profile = store.profile(alex);

    assert!(profile.contains("alex's private preference"));
    assert!(
        !profile.contains("sam's private preference"),
        "the profile leaked another user's memories: {profile}"
    );
}

#[test]
fn stays_within_the_token_budget_with_a_large_corpus() {
    let mut store = Store::new();
    for index in 0..1_000 {
        store.save_in(
            Category::PreferenceCoding,
            &format!("coding preference number {index} with some explanatory text"),
        );
    }

    let profile = store.profile(store.alex);

    let budget_chars = DEFAULT_TOKEN_BUDGET * CHARS_PER_TOKEN;
    assert!(
        profile.len() <= budget_chars,
        "profile was {} chars, budget is {budget_chars}",
        profile.len()
    );
}

#[test]
fn says_how_much_it_left_out() {
    let mut store = Store::new();
    for index in 0..20 {
        store.save_in(
            Category::PreferenceCoding,
            &format!("preference number {index}"),
        );
    }

    let profile = store.profile(store.alex);

    assert!(
        profile.contains("of 20 memories shown"),
        "a truncated profile must say so: {profile}"
    );
    assert!(profile.contains("memory_recall"), "{profile}");
}

#[test]
fn one_category_cannot_crowd_out_the_others() {
    let mut store = Store::new();
    for index in 0..50 {
        store.save_in(
            Category::PreferenceCoding,
            &format!("coding preference {index}"),
        );
    }
    store.save_in(Category::Decision, "the one decision");

    let profile = store.profile(store.alex);

    assert!(
        profile.contains("the one decision"),
        "a prolific category buried the rest: {profile}"
    );
    assert_eq!(
        profile.matches("- coding preference").count(),
        MAX_PER_CATEGORY,
        "per-category cap not applied: {profile}"
    );
}

#[test]
fn higher_confidence_memories_are_preferred() {
    let mut store = Store::new();
    let alex = store.alex;
    for index in 0..MAX_PER_CATEGORY {
        let mut memory = new_memory(&format!("uncertain guess {index}"));
        memory.confidence = 0.2f32.to_bits();
        store.execute_save(alex, memory, "test").unwrap();
    }
    let mut confident = new_memory("a confident preference");
    confident.confidence = 1.0f32.to_bits();
    store.execute_save(alex, confident, "test").unwrap();

    let profile = store.profile(alex);

    assert!(
        profile.contains("a confident preference"),
        "a confident memory lost its place to guesses: {profile}"
    );
}

#[test]
fn superseded_and_deleted_memories_are_excluded() {
    let mut store = Store::new();
    let alex = store.alex;
    let old = store.save(alex, "deploys on flyio");
    let new = store.save(alex, "deploys on hetzner");
    store
        .update(alex, &old.clone().supersede(new.id(), now()), "test")
        .unwrap();

    let deleted = store.save(alex, "a deleted memory");
    store.delete(alex, deleted.id(), "test", "").unwrap();

    let profile = store.profile(alex);

    assert!(profile.contains("hetzner"));
    assert!(
        !profile.contains("flyio"),
        "superseded memory shown: {profile}"
    );
    assert!(!profile.contains("a deleted memory"), "{profile}");
}

#[test]
fn multi_line_content_stays_on_one_line() {
    let mut store = Store::new();
    let alex = store.alex;
    store.save(alex, "a memory\nspanning lines");

    let profile = store.profile(alex);

    assert!(profile.contains("- a memory spanning lines"), "{profile}");
}

#[test]
fn a_configured_extra_category_is_not_invisible() {
    let mut store = Store::new();
    store.save_in(
        Category::Custom("fact.homelab".to_string()),
        "the nas has 40tb",
    );

    let profile = store.profile(store.alex);

    assert!(profile.contains("the nas has 40tb"), "{profile}");
}

fn memories_in(user: UserId, category: Category, count: usize) -> Vec<Memory> {
    (0..count)
        .map(|index| {
            let mut new = new_memory(&format!("note {index}"));
            new.category = category.clone();
            Memory::create(user, new, now()).unwrap()
        })
        .collect()
}

#[test]
fn configured_categories_past_the_cap_are_counted_as_left_out() {
    let memories = memories_in(UserId::new(), Category::Custom("fact.homelab".to_string()), 9);

    let profile = render("alex", &memories, now(), 6_000);
    assert_eq!(profile.matches("- note").count(), 8);
    assert!(
        profile.ends_with("\n_8 of 9 memories shown. Use `memory_recall` to search the rest._\n"),
        "{profile}"
    );

    let none = render("alex", &memories, now(), 0);
    assert!(none.contains("0 of 9 memories shown"), "{none}");
}

#[test]
fn the_note_is_counted_in_the_budget() {
    let memories = memories_in(UserId::new(), Category::PreferenceCoding, 9);
    let whole = render("alex", &memories, now(), 6_000);
    assert!(whole.contains("8 of 9 memories shown"));

    assert_eq!(render("alex", &memories, now(), whole.len()), whole);
    let tight = render("alex", &memories, now(), whole.len() - 1);
    assert!(tight.len() < whole.len());
    assert!(tight.contains("0 of 9 memories shown"), "{tight}");
}

#[test]
fn a_profile_that_just_fits_is_shown_whole() {
    let user = UserId::new();
    let mut memories = memories_in(user, Category::PreferenceCoding, 3);
    memories.extend(memories_in(user, Category::Decision, 2));
    let whole = render("alex", &memories, now(), 6_000);
    assert!(!whole.contains("memories shown"), "{whole}");

    assert_eq!(render("alex", &memories, now(), whole.len()), whole);
    let tight = render("alex", &memories, now(), whole.len() - 1);
    assert!(tight.len() < whole.len(), "{tight}");
    assert!(tight.contains("of 5 memories shown"), "{tight}");
}
