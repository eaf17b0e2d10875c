//! The memory: one atomic thing worth remembering.
//!
//! A memory holds a single durable fact, preference or decision. Retrieval
//! hands whole memories to an agent, so one that bundles five unrelated facts
//! wastes four of them on every recall.
use super::category::{Category, CategoryView};
use crate::shared::error::{RaError, Result};
use crate::shared::ids::{is_version_7, MemoryId, UserId};
use crate::shared::time::Timestamp;
use crate::text::{debug_text, decimal, decimal_text, fold, folded, quote, texts, trim, trimmed};
use vstd::prelude::*;
use vstd::string::StrSliceExecFns;
use vstd::string::StringExecFns;

verus! {

/// Longer than this and it is a document.
pub const MAX_CONTENT_LEN: usize = 4_000;

pub const MAX_TAGS: usize = 32;

pub const MAX_TAG_LEN: usize = 64;

/// The bit pattern of `1.0` as a single-precision number.
pub const ONE: u32 = 0x3f80_0000;

/// The bit pattern of `-0.0` as a single-precision number.
pub const NEGATIVE_ZERO: u32 = 0x8000_0000;

/// The bit pattern of infinity as a single-precision number; what lies beyond
/// it, the sign aside, is not a number.
pub const INFINITY: u32 = 0x7f80_0000;

/// Where a memory came from: which client, which session.
#[derive(Debug, Clone, PartialEq, Eq)]
pub struct MemorySource {
    /// Such as `opencode`, `hermes`, `rest`.
    pub client: Option<String>,
    pub session_id: Option<String>,
}

pub struct SourceView {
    pub client: Option<Seq<char>>,
    pub session_id: Option<Seq<char>>,
}

/// The text inside an optional one.
pub open spec fn option_text(text: Option<String>) -> Option<Seq<char>> {
    match text {
        Some(t) => Some(t@),
        None => None,
    }
}

impl View for MemorySource {
    type V = SourceView;

    open spec fn view(&self) -> SourceView {
        SourceView { client: option_text(self.client), session_id: option_text(self.session_id) }
    }
}

impl Default for MemorySource {
    fn default() -> (source: MemorySource)
        ensures
            source.client is None,
            source.session_id is None,
    {
        MemorySource { client: None, session_id: None }
    }
}

impl MemorySource {
    pub fn copy(&self) -> (copy: MemorySource)
        ensures
            copy == *self,
    {
        MemorySource {
            client: crate::text::copy_option(&self.client),
            session_id: crate::text::copy_option(&self.session_id),
        }
    }
}

/// Something that a memory mentions, such as the service `Hetzner`.
#[derive(Debug, Clone, PartialEq, Eq)]
pub struct Entity {
    pub name: String,
    pub kind: String,
}

pub struct EntityView {
    pub name: Seq<char>,
    pub kind: Seq<char>,
}

impl View for Entity {
    type V = EntityView;

    open spec fn view(&self) -> EntityView {
        EntityView { name: self.name@, kind: self.kind@ }
    }
}

/// The entities of a list.
pub open spec fn entity_views(list: Seq<Entity>) -> Seq<EntityView> {
    list.map_values(|e: Entity| e@)
}

/// A copy of a list of entities.
pub fn copy_entities(list: &Vec<Entity>) -> (copy: Vec<Entity>)
    ensures
        copy@ == list@,
{
    let mut copy: Vec<Entity> = Vec::new();
    let mut i: usize = 0;
    while i < list.len()
        invariant
            0 <= i <= list@.len(),
            copy@ == list@.take(i as int),
        decreases list@.len() - i,
    {
        copy.push(Entity { name: list[i].name.clone(), kind: list[i].kind.clone() });
        assert(list@.take(i + 1) =~= list@.take(i as int).push(list@[i as int]));
        i += 1;
    }
    assert(list@.take(list@.len() as int) =~= list@);
    copy
}

/// A memory. Confidence and importance are single-precision numbers, held by
/// their bit patterns.
#[derive(Debug, Clone, PartialEq)]
pub struct Memory {
    id: MemoryId,
    user_id: UserId,
    content: String,
    category: Category,
    subcategory: Option<String>,
    tags: Vec<String>,
    entities: Vec<Entity>,
    confidence: u32,
    importance: u32,
    access_count: u64,
    source: MemorySource,
    created_at: Timestamp,
    updated_at: Timestamp,
    last_accessed_at: Option<Timestamp>,
    expires_at: Option<Timestamp>,
    superseded_by: Option<MemoryId>,
}

/// A memory as a value of its own.
#[verifier::ext_equal]
pub struct MemoryView {
    pub id: MemoryId,
    pub user_id: UserId,
    pub content: Seq<char>,
    pub category: CategoryView,
    pub subcategory: Option<Seq<char>>,
    pub tags: Seq<Seq<char>>,
    pub entities: Seq<EntityView>,
    pub confidence: u32,
    pub importance: u32,
    pub access_count: u64,
    pub source: SourceView,
    pub created_at: Timestamp,
    pub updated_at: Timestamp,
    pub last_accessed_at: Option<Timestamp>,
    pub expires_at: Option<Timestamp>,
    pub superseded_by: Option<MemoryId>,
}

impl View for Memory {
    type V = MemoryView;

    closed spec fn view(&self) -> MemoryView {
        MemoryView {
            id: self.id,
            user_id: self.user_id,
            content: self.content@,
            category: self.category@,
            subcategory: option_text(self.subcategory),
            tags: texts(self.tags@),
            entities: entity_views(self.entities@),
            confidence: self.confidence,
            importance: self.importance,
            access_count: self.access_count,
            source: self.source@,
            created_at: self.created_at,
            updated_at: self.updated_at,
            last_accessed_at: self.last_accessed_at,
            expires_at: self.expires_at,
            superseded_by: self.superseded_by,
        }
    }
}

/// Everything needed to create a memory.
#[derive(Debug, Clone)]
pub struct NewMemory {
    pub content: String,
    pub category: Category,
    pub subcategory: Option<String>,
    pub tags: Vec<String>,
    pub entities: Vec<Entity>,
    /// A single-precision number, by its bit pattern.
    pub confidence: u32,
    pub source: MemorySource,
    pub expires_at: Option<Timestamp>,
}

/// A partial update. `None` leaves a field alone; `Some(None)` clears it.
#[derive(Debug, Clone)]
pub struct MemoryEdit {
    pub content: Option<String>,
    pub category: Option<Category>,
    pub subcategory: Option<Option<String>>,
    pub tags: Option<Vec<String>>,
    pub expires_at: Option<Option<Timestamp>>,
}

impl Default for MemoryEdit {
    fn default() -> (edit: MemoryEdit)
        ensures
            edit.content is None,
            edit.category is None,
            edit.subcategory is None,
            edit.tags is None,
            edit.expires_at is None,
    {
        MemoryEdit { content: None, category: None, subcategory: None, tags: None, expires_at: None }
    }
}

/// A single-precision number brought into `0.0..=1.0`, by bit patterns: what
/// is not a number becomes zero, and negative zero stays what it is.
pub open spec fn clamped(bits: u32) -> u32 {
    if INFINITY < bits < NEGATIVE_ZERO || bits > NEGATIVE_ZERO {
        0
    } else if bits == NEGATIVE_ZERO {
        bits
    } else if bits > ONE {
        ONE
    } else {
        bits
    }
}

/// Brings a confidence into range. A value that is not a number would poison
/// every comparison it touches.
pub fn clamp_confidence(confidence: u32) -> (bits: u32)
    ensures
        bits == clamped(confidence),
{
    if (INFINITY < confidence && confidence < NEGATIVE_ZERO) || confidence > NEGATIVE_ZERO {
        0
    } else if confidence == NEGATIVE_ZERO {
        confidence
    } else if confidence > ONE {
        ONE
    } else {
        confidence
    }
}

/// The distinct tags of a list, folded, blanks dropped, in the order in which
/// each first occurs.
pub open spec fn distinct_tags(tags: Seq<Seq<char>>) -> Seq<Seq<char>>
    decreases tags.len(),
{
    if tags.len() == 0 {
        Seq::empty()
    } else {
        let earlier = distinct_tags(tags.drop_last());
        let tag = folded(tags.last());
        if tag.len() == 0 || earlier.contains(tag) {
            earlier
        } else {
            earlier.push(tag)
        }
    }
}

/// The first tag that is too long, if there is one.
pub open spec fn first_overlong(tags: Seq<Seq<char>>) -> Option<Seq<char>>
    decreases tags.len(),
{
    if tags.len() == 0 {
        None
    } else if folded(tags[0]).len() > MAX_TAG_LEN {
        Some(folded(tags[0]))
    } else {
        first_overlong(tags.drop_first())
    }
}

/// Why a list of tags is refused, if it is.
pub open spec fn tags_complaint(tags: Seq<Seq<char>>) -> Option<Seq<char>> {
    match first_overlong(tags) {
        Some(tag) => Some(
            "tag "@ + debug_text(tag) + " is longer than "@ + decimal(MAX_TAG_LEN as nat)
                + " characters"@,
        ),
        None => if distinct_tags(tags).len() > MAX_TAGS {
            Some("more than "@ + decimal(MAX_TAGS as nat) + " tags"@)
        } else {
            None
        },
    }
}

proof fn lemma_first_overlong_step(tags: Seq<Seq<char>>, i: int)
    requires
        0 <= i < tags.len(),
    ensures
        first_overlong(tags.skip(i)) == (if folded(tags[i]).len() > MAX_TAG_LEN {
            Some(folded(tags[i]))
        } else {
            first_overlong(tags.skip(i + 1))
        }),
{
    assert(tags.skip(i)[0] == tags[i]);
    assert(tags.skip(i).drop_first() =~= tags.skip(i + 1));
}

/// Whether a list of texts holds a text.
pub fn holds_text(list: &Vec<String>, text: &String) -> (held: bool)
    ensures
        held == texts(list@).contains(text@),
{
    let mut i: usize = 0;
    while i < list.len()
        invariant
            0 <= i <= list@.len(),
            forall|j: int| 0 <= j < i ==> #[trigger] texts(list@)[j] != text@,
        decreases list@.len() - i,
    {
        assert(texts(list@)[i as int] == list@[i as int]@);
        if list[i] == *text {
            return true;
        }
        i += 1;
    }
    false
}

/// Folds, drops blanks and repetitions, keeps the order. Tags are matched
/// exactly at query time, so `Rust` and `rust` as two tags would silently
/// split a filter's results.
pub fn normalize_tags(tags: &Vec<String>) -> (normalized: Result<Vec<String>>)
    ensures
        match normalized {
            Ok(list) => tags_complaint(texts(tags@)) is None && texts(list@) == distinct_tags(
                texts(tags@),
            ),
            Err(e) => e is Validation && tags_complaint(texts(tags@)) == Some(e.text()),
        },
{
    let mut normalized: Vec<String> = Vec::new();
    let mut i: usize = 0;
    assert(texts(tags@).skip(0) =~= texts(tags@));
    assert(texts(tags@).take(0) =~= Seq::empty());
    assert(texts(normalized@) =~= Seq::empty());
    while i < tags.len()
        invariant
            0 <= i <= tags@.len(),
            texts(normalized@) == distinct_tags(texts(tags@).take(i as int)),
            first_overlong(texts(tags@)) == first_overlong(texts(tags@).skip(i as int)),
        decreases tags@.len() - i,
    {
        let tag = fold(tags[i].as_str());
        proof {
            lemma_first_overlong_step(texts(tags@), i as int);
            assert(texts(tags@)[i as int] == tags@[i as int]@);
            assert(texts(tags@).take(i + 1).drop_last() =~= texts(tags@).take(i as int));
            assert(texts(tags@).take(i + 1).last() == tags@[i as int]@);
        }
        if tag.as_str().unicode_len() > MAX_TAG_LEN {
            let mut sentence = "tag ".to_owned();
            sentence.append(quote(tag.as_str()).as_str());
            sentence.append(" is longer than ");
            sentence.append(decimal_text(MAX_TAG_LEN as u64).as_str());
            sentence.append(" characters");
            return Err(RaError::Validation(sentence));
        }
        if !tag.as_str().is_empty() && !holds_text(&normalized, &tag) {
            let ghost before = normalized@;
            let ghost added = tag@;
            normalized.push(tag);
            assert(texts(normalized@) =~= texts(before).push(added));
        }
        i += 1;
    }
    assert(texts(tags@).take(tags@.len() as int) =~= texts(tags@));
    assert(texts(tags@).skip(tags@.len() as int) =~= Seq::empty());
    if normalized.len() > MAX_TAGS {
        let mut sentence = "more than ".to_owned();
        sentence.append(decimal_text(MAX_TAGS as u64).as_str());
        sentence.append(" tags");
        return Err(RaError::Validation(sentence));
    }
    Ok(normalized)
}

/// Why a content is refused, if it is.
pub open spec fn content_complaint(content: Seq<char>) -> Option<Seq<char>> {
    if trimmed(content).len() == 0 {
        Some("memory content is empty"@)
    } else if trimmed(content).len() > MAX_CONTENT_LEN {
        Some(
            "memory content is longer than "@ + decimal(MAX_CONTENT_LEN as nat) + " characters"@,
        )
    } else {
        None
    }
}

fn check_content(content: &str) -> (checked: Result<String>)
    ensures
        match checked {
            Ok(kept) => content_complaint(content@) is None && kept@ == trimmed(content@),
            Err(e) => e is Validation && content_complaint(content@) == Some(e.text()),
        },
{
    let kept = trim(content);
    if kept.as_str().is_empty() {
        return Err(RaError::Validation("memory content is empty".to_owned()));
    }
    if kept.as_str().unicode_len() > MAX_CONTENT_LEN {
        let mut sentence = "memory content is longer than ".to_owned();
        sentence.append(decimal_text(MAX_CONTENT_LEN as u64).as_str());
        sentence.append(" characters");
        return Err(RaError::Validation(sentence));
    }
    Ok(kept)
}

/// Why a new memory is refused, if it is: its content first, then its expiry,
/// then its tags.
pub open spec fn creation_complaint(new: NewMemory, now: Timestamp) -> Option<Seq<char>> {
    if content_complaint(new.content@) is Some {
        content_complaint(new.content@)
    } else if new.expires_at is Some && !now.before(new.expires_at->0) {
        Some("expires_at is already in the past"@)
    } else {
        tags_complaint(texts(new.tags@))
    }
}

/// The memory that a new one becomes under an identifier.
pub open spec fn created(
    id: MemoryId,
    user_id: UserId,
    new: NewMemory,
    now: Timestamp,
) -> MemoryView {
    MemoryView {
        id,
        user_id,
        content: trimmed(new.content@),
        category: new.category@,
        subcategory: option_text(new.subcategory),
        tags: distinct_tags(texts(new.tags@)),
        entities: entity_views(new.entities@),
        confidence: clamped(new.confidence),
        importance: ONE,
        access_count: 0,
        source: new.source@,
        created_at: now,
        updated_at: now,
        last_accessed_at: None,
        expires_at: new.expires_at,
        superseded_by: None,
    }
}

/// Why an edit is refused, if it is: its content first, then its tags.
pub open spec fn edit_complaint(edit: MemoryEdit) -> Option<Seq<char>> {
    if edit.content is Some && content_complaint(edit.content->0@) is Some {
        content_complaint(edit.content->0@)
    } else if edit.tags is Some {
        tags_complaint(texts(edit.tags->0@))
    } else {
        None
    }
}

/// What an edit makes of a memory.
pub open spec fn edited(memory: MemoryView, edit: MemoryEdit, now: Timestamp) -> MemoryView {
    MemoryView {
        content: match edit.content {
            Some(content) => trimmed(content@),
            None => memory.content,
        },
        category: match edit.category {
            Some(category) => category@,
            None => memory.category,
        },
        subcategory: match edit.subcategory {
            Some(subcategory) => option_text(subcategory),
            None => memory.subcategory,
        },
        tags: match edit.tags {
            Some(tags) => distinct_tags(texts(tags@)),
            None => memory.tags,
        },
        expires_at: match edit.expires_at {
            Some(expires_at) => expires_at,
            None => memory.expires_at,
        },
        updated_at: now,
        ..memory
    }
}

impl MemoryView {
    pub open spec fn is_superseded(self) -> bool {
        self.superseded_by is Some
    }

    pub open spec fn is_expired_at(self, now: Timestamp) -> bool {
        self.expires_at is Some && !now.before(self.expires_at->0)
    }

    /// Whether the memory appears in ordinary recall.
    pub open spec fn is_active_at(self, now: Timestamp) -> bool {
        !self.is_superseded() && !self.is_expired_at(now)
    }

    pub open spec fn superseded(self, replacement: MemoryId, now: Timestamp) -> MemoryView {
        MemoryView { superseded_by: Some(replacement), updated_at: now, ..self }
    }

    /// A recall is counted, up to what the count can hold.
    pub open spec fn accessed(self, now: Timestamp) -> MemoryView {
        MemoryView {
            last_accessed_at: Some(now),
            access_count: if self.access_count == u64::MAX {
                u64::MAX
            } else {
                (self.access_count + 1) as u64
            },
            ..self
        }
    }
}

impl Memory {
    /// Creates a memory under an identifier made for it.
    pub fn create(user_id: UserId, new: NewMemory, now: Timestamp) -> (memory: Result<Memory>)
        ensures
            match memory {
                Ok(m) => creation_complaint(new, now) is None && m@ == created(
                    m@.id,
                    user_id,
                    new,
                    now,
                ) && is_version_7(m@.id.value),
                Err(e) => e is Validation && creation_complaint(new, now) == Some(e.text()),
            },
    {
        Memory::create_with_id(MemoryId::new(), user_id, new, now)
    }

    /// Creates a memory under a given identifier.
    pub fn create_with_id(
        id: MemoryId,
        user_id: UserId,
        new: NewMemory,
        now: Timestamp,
    ) -> (memory: Result<Memory>)
        ensures
            match memory {
                Ok(m) => creation_complaint(new, now) is None && m@ == created(
                    id,
                    user_id,
                    new,
                    now,
                ),
                Err(e) => e is Validation && creation_complaint(new, now) == Some(e.text()),
            },
    {
        let content = match check_content(new.content.as_str()) {
            Ok(content) => content,
            Err(e) => return Err(e),
        };
        match new.expires_at {
            Some(expires_at) => {
                if !now.is_before(&expires_at) {
                    return Err(RaError::Validation("expires_at is already in the past".to_owned()));
                }
            },
            None => {},
        }
        let tags = match normalize_tags(&new.tags) {
            Ok(tags) => tags,
            Err(e) => return Err(e),
        };
        Ok(
            Memory {
                id,
                user_id,
                content,
                category: new.category,
                subcategory: new.subcategory,
                tags,
                entities: new.entities,
                confidence: clamp_confidence(new.confidence),
                importance: ONE,
                access_count: 0,
                source: new.source,
                created_at: now,
                updated_at: now,
                last_accessed_at: None,
                expires_at: new.expires_at,
                superseded_by: None,
            },
        )
    }

    /// Rebuilds from storage without validating again: stored rows are
    /// historical fact.
    pub fn from_stored(
        id: MemoryId,
        user_id: UserId,
        content: String,
        category: Category,
        subcategory: Option<String>,
        tags: Vec<String>,
        entities: Vec<Entity>,
        confidence: u32,
        importance: u32,
        access_count: u64,
        source: MemorySource,
        created_at: Timestamp,
        updated_at: Timestamp,
        last_accessed_at: Option<Timestamp>,
        expires_at: Option<Timestamp>,
        superseded_by: Option<MemoryId>,
    ) -> (memory: Memory)
        ensures
            memory@ == (MemoryView {
                id,
                user_id,
                content: content@,
                category: category@,
                subcategory: option_text(subcategory),
                tags: texts(tags@),
                entities: entity_views(entities@),
                confidence,
                importance,
                access_count,
                source: source@,
                created_at,
                updated_at,
                last_accessed_at,
                expires_at,
                superseded_by,
            }),
    {
        Memory {
            id,
            user_id,
            content,
            category,
            subcategory,
            tags,
            entities,
            confidence,
            importance,
            access_count,
            source,
            created_at,
            updated_at,
            last_accessed_at,
            expires_at,
            superseded_by,
        }
    }

    /// A copy of the memory.
    pub fn copy(&self) -> (copy: Memory)
        ensures
            copy@ == self@,
    {
        Memory {
            id: self.id,
            user_id: self.user_id,
            content: self.content.clone(),
            category: self.category.copy(),
            subcategory: crate::text::copy_option(&self.subcategory),
            tags: crate::text::copy_texts(&self.tags),
            entities: copy_entities(&self.entities),
            confidence: self.confidence,
            importance: self.importance,
            access_count: self.access_count,
            source: self.source.copy(),
            created_at: self.created_at,
            updated_at: self.updated_at,
            last_accessed_at: self.last_accessed_at,
            expires_at: self.expires_at,
            superseded_by: self.superseded_by,
        }
    }

    pub fn id(&self) -> (id: MemoryId)
        ensures
            id == self@.id,
    {
        self.id
    }

    /// Whose memory this is.
    pub fn user_id(&self) -> (user_id: UserId)
        ensures
            user_id == self@.user_id,
    {
        self.user_id
    }

    pub fn content(&self) -> (content: &str)
        ensures
            content@ == self@.content,
    {
        self.content.as_str()
    }

    pub fn category(&self) -> (category: &Category)
        ensures
            category@ == self@.category,
    {
        &self.category
    }

    pub fn subcategory(&self) -> (subcategory: Option<&str>)
        ensures
            match subcategory {
                Some(s) => self@.subcategory == Some(s@),
                None => self@.subcategory is None,
            },
    {
        match &self.subcategory {
            Some(s) => Some(s.as_str()),
            None => None,
        }
    }

    pub fn tags(&self) -> (tags: &Vec<String>)
        ensures
            texts(tags@) == self@.tags,
    {
        &self.tags
    }

    pub fn entities(&self) -> (entities: &Vec<Entity>)
        ensures
            entity_views(entities@) == self@.entities,
    {
        &self.entities
    }

    /// A single-precision number, by its bit pattern.
    pub fn confidence(&self) -> (bits: u32)
        ensures
            bits == self@.confidence,
    {
        self.confidence
    }

    /// How much the memory is used: a single-precision number, by its bit
    /// pattern. One until something has measured it.
    pub fn importance(&self) -> (bits: u32)
        ensures
            bits == self@.importance,
    {
        self.importance
    }

    /// How often the memory was recalled.
    pub fn access_count(&self) -> (count: u64)
        ensures
            count == self@.access_count,
    {
        self.access_count
    }

    pub fn source(&self) -> (source: &MemorySource)
        ensures
            source@ == self@.source,
    {
        &self.source
    }

    pub fn created_at(&self) -> (at: Timestamp)
        ensures
            at == self@.created_at,
    {
        self.created_at
    }

    pub fn updated_at(&self) -> (at: Timestamp)
        ensures
            at == self@.updated_at,
    {
        self.updated_at
    }

    pub fn last_accessed_at(&self) -> (at: Option<Timestamp>)
        ensures
            at == self@.last_accessed_at,
    {
        self.last_accessed_at
    }

    pub fn expires_at(&self) -> (at: Option<Timestamp>)
        ensures
            at == self@.expires_at,
    {
        self.expires_at
    }

    pub fn superseded_by(&self) -> (id: Option<MemoryId>)
        ensures
            id == self@.superseded_by,
    {
        self.superseded_by
    }

    pub fn is_superseded(&self) -> (superseded: bool)
        ensures
            superseded == self@.is_superseded(),
    {
        self.superseded_by.is_some()
    }

    pub fn is_expired_at(&self, now: Timestamp) -> (expired: bool)
        ensures
            expired == self@.is_expired_at(now),
    {
        match self.expires_at {
            Some(expires_at) => !now.is_before(&expires_at),
            None => false,
        }
    }

    /// Whether this memory should appear in ordinary recall.
    pub fn is_active_at(&self, now: Timestamp) -> (active: bool)
        ensures
            active == self@.is_active_at(now),
    {
        !self.is_superseded() && !self.is_expired_at(now)
    }

    /// Applies an edit, giving the updated memory. An edit produces a new
    /// state, so a half-applied one cannot be observed.
    pub fn edit(self, edit: MemoryEdit, now: Timestamp) -> (memory: Result<Memory>)
        ensures
            match memory {
                Ok(m) => edit_complaint(edit) is None && m@ == edited(self@, edit, now),
                Err(e) => e is Validation && edit_complaint(edit) == Some(e.text()),
            },
    {
        let mut memory = self;
        match edit.content {
            Some(content) => match check_content(content.as_str()) {
                Ok(kept) => {
                    memory.content = kept;
                },
                Err(e) => return Err(e),
            },
            None => {},
        }
        match edit.category {
            Some(category) => {
                memory.category = category;
            },
            None => {},
        }
        match edit.subcategory {
            Some(subcategory) => {
                memory.subcategory = subcategory;
            },
            None => {},
        }
        match edit.tags {
            Some(tags) => match normalize_tags(&tags) {
                Ok(list) => {
                    memory.tags = list;
                },
                Err(e) => return Err(e),
            },
            None => {},
        }
        match edit.expires_at {
            Some(expires_at) => {
                memory.expires_at = expires_at;
            },
            None => {},
        }
        memory.updated_at = now;
        Ok(memory)
    }

    /// Marks this memory as replaced by another. It is retained, only hidden
    /// from ordinary recall.
    pub fn supersede(self, replacement: MemoryId, now: Timestamp) -> (memory: Memory)
        ensures
            memory@ == self@.superseded(replacement, now),
    {
        let mut memory = self;
        memory.superseded_by = Some(replacement);
        memory.updated_at = now;
        memory
    }

    /// Records a recall: when it was, and that it was one more.
    pub fn mark_accessed(self, now: Timestamp) -> (memory: Memory)
        ensures
            memory@ == self@.accessed(now),
    {
        let mut memory = self;
        memory.last_accessed_at = Some(now);
        if memory.access_count < u64::MAX {
            memory.access_count = memory.access_count + 1;
        }
        memory
    }

    /// The memory with a measured importance.
    pub fn with_importance(self, importance: u32) -> (memory: Memory)
        ensures
            memory@ == (MemoryView { importance, ..self@ }),
    {
        let mut memory = self;
        memory.importance = importance;
        memory
    }
}

proof fn lemma_distinct_tags(tags: Seq<Seq<char>>)
    ensures
        forall|i: int|
            0 <= i < distinct_tags(tags).len() ==> (#[trigger] distinct_tags(tags)[i]).len() > 0
                && folded(distinct_tags(tags)[i]) == distinct_tags(tags)[i],
        distinct_tags(tags).no_duplicates(),
        distinct_tags(tags).len() <= tags.len(),
    decreases tags.len(),
{
    if tags.len() > 0 {
        lemma_distinct_tags(tags.drop_last());
        crate::text::folding_is_idempotent(tags.last());
        let earlier = distinct_tags(tags.drop_last());
        let tag = folded(tags.last());
        if tag.len() > 0 && !earlier.contains(tag) {
            assert forall|i: int, j: int|
                0 <= i < j < earlier.push(tag).len() implies earlier.push(tag)[i] != earlier.push(
                tag,
            )[j] by {
                if j == earlier.len() {
                    assert(earlier.contains(earlier[i]));
                }
            }
        }
    }
}

/// Kept tags are folded, not blank, no two alike, and each came from the list.
pub proof fn kept_tags_are_canonical(tags: Seq<Seq<char>>)
    ensures
        distinct_tags(tags).no_duplicates(),
        forall|i: int|
            0 <= i < distinct_tags(tags).len() ==> (#[trigger] distinct_tags(tags)[i]).len() > 0
                && folded(distinct_tags(tags)[i]) == distinct_tags(tags)[i],
        forall|t: Seq<char>|
            distinct_tags(tags).contains(t) <==> t.len() > 0 && exists|i: int|
                0 <= i < tags.len() && folded(#[trigger] tags[i]) == t,
    decreases tags.len(),
{
    lemma_distinct_tags(tags);
    assert forall|t: Seq<char>| distinct_tags(tags).contains(t) <==> t.len() > 0 && exists|i: int|
        0 <= i < tags.len() && folded(#[trigger] tags[i]) == t by {
        lemma_tag_membership(tags, t);
    }
}

proof fn lemma_tag_membership(tags: Seq<Seq<char>>, t: Seq<char>)
    ensures
        distinct_tags(tags).contains(t) <==> t.len() > 0 && exists|i: int|
            0 <= i < tags.len() && folded(#[trigger] tags[i]) == t,
    decreases tags.len(),
{
    if tags.len() > 0 {
        let earlier = distinct_tags(tags.drop_last());
        let tag = folded(tags.last());
        lemma_tag_membership(tags.drop_last(), t);
        if exists|i: int| 0 <= i < tags.drop_last().len() && folded(#[trigger] tags.drop_last()[i])
            == t {
            let i = choose|i: int|
                0 <= i < tags.drop_last().len() && folded(#[trigger] tags.drop_last()[i]) == t;
            assert(folded(tags[i]) == t);
        }
        if exists|i: int| 0 <= i < tags.len() && folded(#[trigger] tags[i]) == t {
            let i = choose|i: int| 0 <= i < tags.len() && folded(#[trigger] tags[i]) == t;
            if i < tags.len() - 1 {
                assert(folded(tags.drop_last()[i]) == t);
            } else {
                assert(tag == t);
            }
        }
        if tag.len() > 0 && !earlier.contains(tag) {
            let grown = earlier.push(tag);
            assert(grown[grown.len() - 1] == tag);
            if earlier.contains(t) {
                let i = choose|i: int| 0 <= i < earlier.len() && earlier[i] == t;
                assert(grown[i] == t);
            }
            if grown.contains(t) {
                let i = choose|i: int| 0 <= i < grown.len() && grown[i] == t;
                if i < earlier.len() {
                    assert(earlier[i] == t);
                } else {
                    assert(tags[tags.len() - 1] == tags.last());
                }
            }
        } else if tag.len() > 0 {
            assert(tags[tags.len() - 1] == tags.last());
        }
    }
}

proof fn lemma_canonical_tags_are_fixed(tags: Seq<Seq<char>>)
    requires
        tags.no_duplicates(),
        forall|i: int|
            0 <= i < tags.len() ==> (#[trigger] tags[i]).len() > 0 && folded(tags[i]) == tags[i],
    ensures
        distinct_tags(tags) == tags,
    decreases tags.len(),
{
    if tags.len() > 0 {
        let shorter = tags.drop_last();
        assert forall|i: int| 0 <= i < shorter.len() implies (#[trigger] shorter[i]).len() > 0
            && folded(shorter[i]) == shorter[i] by {
            assert(shorter[i] == tags[i]);
        }
        lemma_canonical_tags_are_fixed(shorter);
        assert(tags[tags.len() - 1] == tags.last());
        assert(!shorter.contains(tags.last()));
        assert(shorter.push(tags.last()) =~= tags);
    } else {
        assert(tags =~= Seq::empty());
    }
}

/// Normalising tags that are normalised already changes nothing.
pub proof fn normalising_tags_is_idempotent(tags: Seq<Seq<char>>)
    ensures
        distinct_tags(distinct_tags(tags)) == distinct_tags(tags),
{
    lemma_distinct_tags(tags);
    lemma_canonical_tags_are_fixed(distinct_tags(tags));
}

/// A confidence in range stays in range, and bringing it in range again
/// changes nothing.
pub proof fn clamping_is_idempotent(bits: u32)
    ensures
        clamped(clamped(bits)) == clamped(bits),
        clamped(bits) <= ONE || clamped(bits) == NEGATIVE_ZERO,
{
}

/// A new memory is active at once: it neither is superseded nor has expired.
pub proof fn new_memories_are_active(
    id: MemoryId,
    user_id: UserId,
    new: NewMemory,
    now: Timestamp,
)
    requires
        creation_complaint(new, now) is None,
    ensures
        created(id, user_id, new, now).is_active_at(now),
{
}

/// Once expired, always expired.
pub proof fn expiry_is_final(memory: MemoryView, at: Timestamp, later: Timestamp)
    requires
        memory.is_expired_at(at),
        !later.before(at),
    ensures
        memory.is_expired_at(later),
        !memory.is_active_at(later),
{
}

/// An edit never touches who the memory belongs to, when it was made, where
/// it came from or what replaced it; an empty one touches the time alone.
pub proof fn edits_keep_the_rest(memory: MemoryView, edit: MemoryEdit, now: Timestamp)
    ensures
        ({
            let after = edited(memory, edit, now);
            &&& after.id == memory.id
            &&& after.user_id == memory.user_id
            &&& after.created_at == memory.created_at
            &&& after.source == memory.source
            &&& after.entities == memory.entities
            &&& after.confidence == memory.confidence
            &&& after.superseded_by == memory.superseded_by
            &&& after.updated_at == now
            &&& (edit.content is None ==> after.content == memory.content)
            &&& (edit.category is None ==> after.category == memory.category)
            &&& (edit.subcategory is None ==> after.subcategory == memory.subcategory)
            &&& (edit.tags is None ==> after.tags == memory.tags)
            &&& (edit.expires_at is None ==> after.expires_at == memory.expires_at)
        }),
{
}

/// Superseding hides a memory for good and keeps what it says.
pub proof fn superseding_retains(
    memory: MemoryView,
    replacement: MemoryId,
    now: Timestamp,
    at: Timestamp,
)
    ensures
        memory.superseded(replacement, now).superseded_by == Some(replacement),
        !memory.superseded(replacement, now).is_active_at(at),
        memory.superseded(replacement, now).content == memory.content,
        memory.superseded(replacement, now).id == memory.id,
{
}

/// Where an edit gives a field, the edited memory has what was given, whatever
/// it had before: the content trimmed, the tags folded, each once, blanks left
/// out.
pub proof fn edits_put_in_what_they_give(
    memory: MemoryView,
    edit: MemoryEdit,
    now: Timestamp,
    tag: Seq<char>,
)
    ensures
        ({
            let after = edited(memory, edit, now);
            &&& edit.content matches Some(content) ==> after.content == trimmed(content@)
            &&& edit.category matches Some(category) ==> after.category == category@
            &&& edit.subcategory matches Some(Some(subcategory)) ==> after.subcategory == Some(
                subcategory@,
            )
            &&& edit.subcategory matches Some(None) ==> after.subcategory is None
            &&& edit.expires_at matches Some(Some(at)) ==> after.expires_at == Some(at)
            &&& edit.expires_at matches Some(None) ==> after.expires_at is None
            &&& edit.tags matches Some(tags) ==> after.tags.no_duplicates() && (after.tags.contains(
                tag,
            ) <==> tag.len() > 0 && exists|i: int|
                0 <= i < tags@.len() && folded((#[trigger] tags@[i])@) == tag)
        }),
{
    if let Some(tags) = edit.tags {
        lemma_given_tags(tags@, tag);
    }
}

proof fn lemma_given_tags(tags: Seq<String>, tag: Seq<char>)
    ensures
        distinct_tags(texts(tags)).no_duplicates(),
        distinct_tags(texts(tags)).contains(tag) <==> tag.len() > 0 && exists|i: int|
            0 <= i < tags.len() && folded((#[trigger] tags[i])@) == tag,
{
    let names = texts(tags);
    lemma_distinct_tags(names);
    lemma_tag_membership(names, tag);
    if exists|i: int| 0 <= i < names.len() && folded(#[trigger] names[i]) == tag {
        let i = choose|i: int| 0 <= i < names.len() && folded(#[trigger] names[i]) == tag;
        assert(folded(tags[i]@) == tag);
    }
    if exists|i: int| 0 <= i < tags.len() && folded((#[trigger] tags[i])@) == tag {
        let i = choose|i: int| 0 <= i < tags.len() && folded((#[trigger] tags[i])@) == tag;
        assert(folded(names[i]) == tag);
    }
}

/// An edit leaves how often and when a memory was recalled alone, and how much
/// it matters.
pub proof fn edits_keep_the_use(memory: MemoryView, edit: MemoryEdit, now: Timestamp)
    ensures
        edited(memory, edit, now).importance == memory.importance,
        edited(memory, edit, now).access_count == memory.access_count,
        edited(memory, edit, now).last_accessed_at == memory.last_accessed_at,
{
}

/// Kept tags stand in the order in which the list first names them: before a
/// tag is named that stands later, the earlier one has been.
pub proof fn kept_tags_stand_in_order(tags: Seq<Seq<char>>, p: int, q: int)
    requires
        0 <= p < q < distinct_tags(tags).len(),
    ensures
        exists|i: int|
            0 <= i < tags.len() && folded(#[trigger] tags[i]) == distinct_tags(tags)[p] && forall|
                j: int,
            |
                0 <= j <= i ==> folded(#[trigger] tags[j]) != distinct_tags(tags)[q],
    decreases tags.len(),
{
    let kept = distinct_tags(tags);
    let shorter = tags.drop_last();
    let earlier = distinct_tags(shorter);
    lemma_distinct_tags(tags);
    if q < earlier.len() {
        kept_tags_stand_in_order(shorter, p, q);
        let i = choose|i: int|
            0 <= i < shorter.len() && folded(#[trigger] shorter[i]) == earlier[p] && forall|j: int|
                0 <= j <= i ==> folded(#[trigger] shorter[j]) != earlier[q];
        assert(tags[i] == shorter[i]);
        assert forall|j: int| 0 <= j <= i implies folded(#[trigger] tags[j]) != kept[q] by {
            assert(tags[j] == shorter[j]);
        }
    } else {
        assert(kept[q] == folded(tags.last()));
        lemma_tag_membership(shorter, earlier[p]);
        lemma_tag_membership(shorter, kept[q]);
        assert(earlier.contains(earlier[p]));
        let i = choose|i: int| 0 <= i < shorter.len() && folded(#[trigger] shorter[i]) == earlier[p];
        assert(tags[i] == shorter[i]);
        assert forall|j: int| 0 <= j <= i implies folded(#[trigger] tags[j]) != kept[q] by {
            assert(tags[j] == shorter[j]);
        }
    }
}

/// A new memory is what was given: the content trimmed, the tags folded and each
/// once, the confidence in range; unused, not replaced, made now.
pub proof fn new_memories_are_what_was_given(
    id: MemoryId,
    user_id: UserId,
    new: NewMemory,
    now: Timestamp,
    tag: Seq<char>,
)
    ensures
        ({
            let memory = created(id, user_id, new, now);
            &&& memory.id == id && memory.user_id == user_id
            &&& memory.content == trimmed(new.content@)
            &&& memory.category == new.category@
            &&& new.subcategory matches Some(subcategory) ==> memory.subcategory == Some(subcategory@)
            &&& new.subcategory is None ==> memory.subcategory is None
            &&& memory.tags.no_duplicates()
            &&& memory.tags.contains(tag) <==> tag.len() > 0 && exists|i: int|
                0 <= i < new.tags@.len() && folded((#[trigger] new.tags@[i])@) == tag
            &&& memory.entities.len() == new.entities@.len()
            &&& forall|i: int|
                0 <= i < new.entities@.len() ==> #[trigger] memory.entities[i] == new.entities@[i]@
            &&& new.confidence <= ONE ==> memory.confidence == new.confidence
            &&& memory.importance == ONE && memory.access_count == 0
            &&& memory.source == new.source@
            &&& memory.created_at == now && memory.updated_at == now
            &&& memory.last_accessed_at is None && memory.superseded_by is None
            &&& memory.expires_at == new.expires_at
        }),
{
    lemma_given_tags(new.tags@, tag);
}

/// A confidence keeps its value where it lies in range, becomes one where it is
/// above, and nothing where it is below or is no number; the greater of two
/// numbers never becomes the less.
pub proof fn clamping_moves_what_is_out_of_range_alone(a: u32, b: u32)
    ensures
        a <= ONE || a == NEGATIVE_ZERO ==> clamped(a) == a,
        ONE <= a <= INFINITY ==> clamped(a) == ONE,
        INFINITY < a < NEGATIVE_ZERO ==> clamped(a) == 0,
        a > NEGATIVE_ZERO ==> clamped(a) == 0,
        a <= b <= INFINITY ==> clamped(a) <= clamped(b),
{
}

/// A content is accepted if something is left of it once trimmed, and no more
/// than the limit.
pub proof fn contents_are_accepted_by_length(content: Seq<char>)
    ensures
        content_complaint(content) is None <==> 0 < trimmed(content).len() <= 4_000,
        trimmed(content).len() == 0 ==> content_complaint(content) == Some(
            "memory content is empty"@,
        ),
        trimmed(content).len() > 4_000 ==> content_complaint(content) == Some(
            "memory content is longer than "@ + decimal(4_000) + " characters"@,
        ),
{
}

/// Tags are accepted if none is too long and, once folded, there are not too
/// many different ones.
pub proof fn tags_are_accepted_by_length_and_number(tags: Seq<Seq<char>>)
    ensures
        tags_complaint(tags) is None <==> distinct_tags(tags).len() <= 32 && forall|i: int|
            0 <= i < tags.len() ==> folded(#[trigger] tags[i]).len() <= 64,
        first_overlong(tags) matches Some(tag) ==> tags_complaint(tags) == Some(
            "tag "@ + debug_text(tag) + " is longer than "@ + decimal(64) + " characters"@,
        ),
{
    lemma_overlong(tags);
}

/// The tag that is named as too long is the first of them.
proof fn lemma_overlong(tags: Seq<Seq<char>>)
    ensures
        first_overlong(tags) is None <==> forall|i: int|
            0 <= i < tags.len() ==> folded(#[trigger] tags[i]).len() <= 64,
        first_overlong(tags) matches Some(tag) ==> exists|i: int|
            0 <= i < tags.len() && folded(#[trigger] tags[i]) == tag && tag.len() > 64 && forall|
                j: int,
            |
                0 <= j < i ==> folded(#[trigger] tags[j]).len() <= 64,
    decreases tags.len(),
{
    if tags.len() > 0 {
        let rest = tags.drop_first();
        lemma_overlong(rest);
        if folded(tags[0]).len() <= 64 {
            if first_overlong(rest) is None {
                assert forall|i: int| 0 <= i < tags.len() implies folded(#[trigger] tags[i]).len()
                    <= 64 by {
                    if i > 0 {
                        assert(rest[i - 1] == tags[i]);
                    }
                }
            } else {
                let tag = first_overlong(rest)->0;
                let i = choose|i: int|
                    0 <= i < rest.len() && folded(#[trigger] rest[i]) == tag && tag.len() > 64
                        && forall|j: int| 0 <= j < i ==> folded(#[trigger] rest[j]).len() <= 64;
                assert(folded(tags[i + 1]) == tag);
                assert forall|j: int| 0 <= j < i + 1 implies folded(#[trigger] tags[j]).len()
                    <= 64 by {
                    if j > 0 {
                        assert(rest[j - 1] == tags[j]);
                    }
                }
            }
        }
    }
}

/// The tag that is named as too long is in the list, is too long, and none
/// before it is.
pub proof fn the_first_overlong_tag_is_named(tags: Seq<Seq<char>>)
    ensures
        first_overlong(tags) matches Some(tag) ==> exists|i: int|
            0 <= i < tags.len() && folded(#[trigger] tags[i]) == tag && tag.len() > 64 && forall|
                j: int,
            |
                0 <= j < i ==> folded(#[trigger] tags[j]).len() <= 64,
{
    lemma_overlong(tags);
}

/// A new memory is accepted if its content and its tags are, and it does not
/// expire before it is made.
pub proof fn new_memories_are_accepted_by_their_parts(new: NewMemory, now: Timestamp)
    ensures
        creation_complaint(new, now) is None <==> content_complaint(new.content@) is None
            && tags_complaint(texts(new.tags@)) is None && (new.expires_at is None || now.before(
            new.expires_at->0,
        )),
        content_complaint(new.content@) is Some ==> creation_complaint(new, now)
            == content_complaint(new.content@),
        content_complaint(new.content@) is None && new.expires_at is Some && !now.before(
            new.expires_at->0,
        ) ==> creation_complaint(new, now) == Some("expires_at is already in the past"@),
{
}

/// An edit is accepted if the content and the tags that it gives are.
pub proof fn edits_are_accepted_by_their_parts(edit: MemoryEdit)
    ensures
        edit_complaint(edit) is None <==> (edit.content is Some ==> content_complaint(
            edit.content->0@,
        ) is None) && (edit.tags is Some ==> tags_complaint(texts(edit.tags->0@)) is None),
        edit.content is Some && content_complaint(edit.content->0@) is Some ==> edit_complaint(edit)
            == content_complaint(edit.content->0@),
{
}

/// A memory is active as long as nothing replaced it and its time has not come.
pub proof fn memories_are_active_until_replaced_or_expired(memory: MemoryView, now: Timestamp)
    ensures
        memory.is_superseded() <==> memory.superseded_by is Some,
        memory.is_active_at(now) <==> memory.superseded_by is None && (memory.expires_at is None
            || now.before(memory.expires_at->0)),
{
}

/// A recall is counted once and dated, and changes nothing else.
pub proof fn recalls_are_counted(memory: MemoryView, now: Timestamp)
    ensures
        memory.access_count < u64::MAX ==> memory.accessed(now).access_count == memory.access_count
            + 1,
        memory.access_count == u64::MAX ==> memory.accessed(now).access_count == u64::MAX,
        memory.accessed(now).last_accessed_at == Some(now),
        (MemoryView {
            access_count: memory.access_count,
            last_accessed_at: memory.last_accessed_at,
            ..memory.accessed(now)
        }) == memory,
{
}

/// Superseding names the replacement and dates it, and changes nothing else.
pub proof fn superseding_changes_nothing_else(
    memory: MemoryView,
    replacement: MemoryId,
    now: Timestamp,
)
    ensures
        memory.superseded(replacement, now).updated_at == now,
        (MemoryView {
            superseded_by: memory.superseded_by,
            updated_at: memory.updated_at,
            ..memory.superseded(replacement, now)
        }) == memory,
{
}

} // verus!
