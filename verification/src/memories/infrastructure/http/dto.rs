//! The shapes of the REST surface, apart from the memories themselves: those
//! may change, these are a promise to clients.
//!
//! Numbers with a fraction are held by their bit patterns.
use crate::memories::domain::category::{category_complaint, category_of, Category, CategoryView};
use crate::memories::domain::memory::{
    option_text, Memory, MemoryEdit, MemorySource, MemoryView, NewMemory, ONE,
};
use crate::memories::domain::memory_repository::AuditEntry;
use crate::memories::domain::recall_query::{
    category_views, folded_filters, query_complaint, QueryView, RecallQuery, MAX_LIMIT,
};
use crate::memories::domain::recall_ranker::ScoredMemory;
use crate::shared::error::Result;
use crate::shared::time::Timestamp;
use crate::text::{copy_texts, texts, trimmed};
use vstd::prelude::*;

verus! {

/// The confidence of a memory whose request names none: full.
pub fn default_confidence() -> (bits: u32)
    ensures
        bits == ONE,
{
    ONE
}

/// A memory to save as it is.
#[derive(Debug)]
pub struct SaveMemoryRequest {
    pub content: String,
    /// `fact.project` where the client has no opinion.
    pub category: Option<String>,
    pub subcategory: Option<String>,
    pub tags: Vec<String>,
    pub confidence: u32,
    pub client: Option<String>,
    pub session_id: Option<String>,
    pub expires_at: Option<Timestamp>,
}

/// The category that a request for a save names.
pub open spec fn requested_category(
    category: Option<String>,
    extras: Seq<Seq<char>>,
) -> Option<CategoryView> {
    match category {
        Some(raw) => category_of(raw@, extras),
        None => Some(CategoryView::FactProject),
    }
}

impl SaveMemoryRequest {
    pub fn into_new_memory(self, extra_categories: &Vec<String>) -> (new: Result<NewMemory>)
        ensures
            match new {
                Ok(n) => {
                    &&& requested_category(self.category, texts(extra_categories@)) == Some(
                        n.category@,
                    )
                    &&& n.content == self.content
                    &&& n.subcategory == self.subcategory
                    &&& n.tags == self.tags
                    &&& n.entities@.len() == 0
                    &&& n.confidence == self.confidence
                    &&& n.source.client == self.client
                    &&& n.source.session_id == self.session_id
                    &&& n.expires_at == self.expires_at
                },
                Err(e) => {
                    &&& self.category is Some
                    &&& category_of(self.category->0@, texts(extra_categories@)) is None
                    &&& e is Validation
                    &&& e.text() == category_complaint(self.category->0@, texts(extra_categories@))
                },
            },
    {
        let category = match &self.category {
            Some(raw) => match Category::parse_with_extras(raw.as_str(), extra_categories) {
                Ok(category) => category,
                Err(e) => return Err(e),
            },
            None => Category::FactProject,
        };
        Ok(
            NewMemory {
                content: self.content,
                category,
                subcategory: self.subcategory,
                tags: self.tags,
                entities: Vec::new(),
                confidence: self.confidence,
                source: MemorySource { client: self.client, session_id: self.session_id },
                expires_at: self.expires_at,
            },
        )
    }
}

/// A partial update: what is absent stays, what is present and null is
/// cleared.
#[derive(Debug)]
pub struct UpdateMemoryRequest {
    pub content: Option<String>,
    pub category: Option<String>,
    pub subcategory: Option<Option<String>>,
    pub tags: Option<Vec<String>>,
    pub expires_at: Option<Option<Timestamp>>,
}

impl UpdateMemoryRequest {
    pub fn into_edit(self, extra_categories: &Vec<String>) -> (edit: Result<MemoryEdit>)
        ensures
            match edit {
                Ok(e) => {
                    &&& match (self.category, e.category) {
                        (Some(raw), Some(category)) => category_of(
                            raw@,
                            texts(extra_categories@),
                        ) == Some(category@),
                        (None, None) => true,
                        _ => false,
                    }
                    &&& e.content == self.content
                    &&& e.subcategory == self.subcategory
                    &&& e.tags == self.tags
                    &&& e.expires_at == self.expires_at
                },
                Err(e) => {
                    &&& self.category is Some
                    &&& category_of(self.category->0@, texts(extra_categories@)) is None
                    &&& e is Validation
                    &&& e.text() == category_complaint(self.category->0@, texts(extra_categories@))
                },
            },
    {
        let category = match &self.category {
            Some(raw) => match Category::parse_with_extras(raw.as_str(), extra_categories) {
                Ok(category) => Some(category),
                Err(e) => return Err(e),
            },
            None => None,
        };
        Ok(
            MemoryEdit {
                content: self.content,
                category,
                subcategory: self.subcategory,
                tags: self.tags,
                expires_at: self.expires_at,
            },
        )
    }
}

/// A recall.
#[derive(Debug)]
pub struct SearchRequest {
    pub query: String,
    pub limit: Option<usize>,
    pub categories: Vec<String>,
    pub subcategories: Vec<String>,
    pub tags: Vec<String>,
    pub since: Option<Timestamp>,
    pub include_superseded: bool,
}

/// The first name that denotes no category, if there is one.
pub open spec fn first_unknown(names: Seq<Seq<char>>, extras: Seq<Seq<char>>) -> Option<Seq<char>>
    decreases names.len(),
{
    if names.len() == 0 {
        None
    } else {
        match first_unknown(names.drop_last(), extras) {
            Some(name) => Some(name),
            None => if category_of(names.last(), extras) is None {
                Some(names.last())
            } else {
                None
            },
        }
    }
}

/// The categories that names denote.
pub open spec fn named_categories(names: Seq<Seq<char>>, extras: Seq<Seq<char>>) -> Seq<
    CategoryView,
> {
    names.map_values(|name: Seq<char>| category_of(name, extras)->0)
}

/// The limit that a request asks for.
pub open spec fn requested_limit(limit: Option<usize>, default_limit: usize) -> usize {
    match limit {
        Some(n) => n,
        None => default_limit,
    }
}

pub fn parse_categories(names: &Vec<String>, extras: &Vec<String>) -> (categories: Result<
    Vec<Category>,
>)
    ensures
        match categories {
            Ok(list) => first_unknown(texts(names@), texts(extras@)) is None && category_views(
                list@,
            ) == named_categories(texts(names@), texts(extras@)),
            Err(e) => e is Validation && (match first_unknown(texts(names@), texts(extras@)) {
                Some(name) => e.text() == category_complaint(name, texts(extras@)),
                None => false,
            }),
        },
{
    let ghost all = texts(names@);
    let mut list: Vec<Category> = Vec::new();
    let mut i: usize = 0;
    assert(all.take(0) =~= Seq::empty());
    assert(category_views(list@) =~= Seq::empty());
    while i < names.len()
        invariant
            0 <= i <= names@.len(),
            all == texts(names@),
            first_unknown(all.take(i as int), texts(extras@)) is None,
            category_views(list@) == named_categories(all.take(i as int), texts(extras@)),
        decreases names@.len() - i,
    {
        proof {
            assert(all.take(i + 1).drop_last() =~= all.take(i as int));
            assert(all.take(i + 1).last() == names@[i as int]@);
        }
        match Category::parse_with_extras(names[i].as_str(), extras) {
            Ok(category) => {
                let ghost before = list@;
                let ghost added = category@;
                list.push(category);
                proof {
                    assert(category_views(list@) =~= category_views(before).push(added));
                    assert(named_categories(all.take(i + 1), texts(extras@)) =~= named_categories(
                        all.take(i as int),
                        texts(extras@),
                    ).push(added));
                }
            },
            Err(e) => {
                proof {
                    lemma_unknown_stays(all, texts(extras@), i + 1);
                }
                return Err(e);
            },
        }
        i += 1;
    }
    assert(all.take(all.len() as int) =~= all);
    Ok(list)
}

proof fn lemma_unknown_stays(names: Seq<Seq<char>>, extras: Seq<Seq<char>>, n: int)
    requires
        0 <= n <= names.len(),
        first_unknown(names.take(n), extras) is Some,
    ensures
        first_unknown(names, extras) == first_unknown(names.take(n), extras),
    decreases names.len(),
{
    if n == names.len() {
        assert(names.take(n) =~= names);
    } else {
        assert(names.drop_last().take(n) =~= names.take(n));
        lemma_unknown_stays(names.drop_last(), extras, n);
    }
}

impl SearchRequest {
    /// The query that the request is. An unknown category is refused before
    /// the query itself is looked at.
    pub fn into_query(self, extra_categories: &Vec<String>, default_limit: usize) -> (query: Result<
        RecallQuery,
    >)
        ensures
            match first_unknown(texts(self.categories@), texts(extra_categories@)) {
                Some(name) => query matches Err(e) && e is Validation && e.text()
                    == category_complaint(name, texts(extra_categories@)),
                None => match query_complaint(
                    self.query@,
                    requested_limit(self.limit, default_limit) as nat,
                ) {
                    Some(sentence) => query matches Err(e) && e is Validation && e.text()
                        == sentence,
                    None => query matches Ok(q) && q@ == self.asks(
                        texts(extra_categories@),
                        default_limit,
                    ),
                },
            },
    {
        let categories = match parse_categories(&self.categories, extra_categories) {
            Ok(categories) => categories,
            Err(e) => return Err(e),
        };
        let limit: usize = match self.limit {
            Some(n) => n,
            None => default_limit,
        };
        let query = match RecallQuery::new(self.query.as_str(), limit) {
            Ok(query) => query,
            Err(e) => return Err(e),
        };
        let query = query.with_categories(categories).with_subcategories(
            self.subcategories,
        ).with_tags(self.tags).with_since(self.since);
        if self.include_superseded {
            Ok(query.including_superseded())
        } else {
            Ok(query)
        }
    }

    /// The query that the request asks for, where it is accepted.
    pub open spec fn asks(self, extras: Seq<Seq<char>>, default_limit: usize) -> QueryView {
        QueryView {
            text: trimmed(self.query@),
            categories: named_categories(texts(self.categories@), extras),
            subcategories: folded_filters(texts(self.subcategories@)),
            tags: folded_filters(texts(self.tags@)),
            since: self.since,
            as_of: None,
            limit: if requested_limit(self.limit, default_limit) <= MAX_LIMIT {
                requested_limit(self.limit, default_limit) as nat
            } else {
                MAX_LIMIT as nat
            },
            include_superseded: self.include_superseded,
        }
    }
}

/// A memory as it is answered.
#[derive(Debug)]
pub struct MemoryResponse {
    pub id: String,
    pub content: String,
    pub category: String,
    pub subcategory: Option<String>,
    pub tags: Vec<String>,
    pub confidence: u32,
    pub created_at: Timestamp,
    pub updated_at: Timestamp,
    pub expires_at: Option<Timestamp>,
    pub superseded_by: Option<String>,
}

impl MemoryResponse {
    /// The answer shows this memory.
    pub open spec fn shows(self, memory: MemoryView) -> bool {
        &&& self.id@ == memory.id.text()
        &&& self.content@ == memory.content
        &&& self.category@ == memory.category.name()
        &&& option_text(self.subcategory) == memory.subcategory
        &&& texts(self.tags@) == memory.tags
        &&& self.confidence == memory.confidence
        &&& self.created_at == memory.created_at
        &&& self.updated_at == memory.updated_at
        &&& self.expires_at == memory.expires_at
        &&& option_text(self.superseded_by) == (match memory.superseded_by {
            Some(id) => Some(id.text()),
            None => None,
        })
    }

    pub fn from(memory: &Memory) -> (response: MemoryResponse)
        ensures
            response.shows(memory@),
    {
        MemoryResponse {
            id: memory.id().to_text(),
            content: memory.content().to_owned(),
            category: memory.category().as_str().to_owned(),
            subcategory: match memory.subcategory() {
                Some(s) => Some(s.to_owned()),
                None => None,
            },
            tags: copy_texts(memory.tags()),
            confidence: memory.confidence(),
            created_at: memory.created_at(),
            updated_at: memory.updated_at(),
            expires_at: memory.expires_at(),
            superseded_by: match memory.superseded_by() {
                Some(id) => Some(id.to_text()),
                None => None,
            },
        }
    }
}

/// Why a result was returned, so that a surprising ranking can be explained.
#[derive(Debug, Clone, Copy)]
pub struct MatchResponse {
    pub vector_rank: Option<usize>,
    pub bm25_rank: Option<usize>,
}

/// A result of a recall.
#[derive(Debug)]
pub struct SearchHit {
    pub memory: MemoryResponse,
    pub score: u32,
    pub matched: MatchResponse,
}

impl SearchHit {
    pub fn from(scored: &ScoredMemory) -> (hit: SearchHit)
        ensures
            hit.memory.shows(scored.memory@),
            hit.score == scored.score,
            hit.matched.vector_rank == scored.match_detail.vector_rank,
            hit.matched.bm25_rank == scored.match_detail.bm25_rank,
    {
        SearchHit {
            memory: MemoryResponse::from(&scored.memory),
            score: scored.score,
            matched: MatchResponse {
                vector_rank: scored.match_detail.vector_rank,
                bm25_rank: scored.match_detail.bm25_rank,
            },
        }
    }
}

#[derive(Debug)]
pub struct SearchResponse {
    pub results: Vec<SearchHit>,
    pub took_ms: u64,
}

impl SearchResponse {
    /// The answer to a recall: every result, in order.
    pub fn from(results: &Vec<ScoredMemory>, took_ms: u64) -> (response: SearchResponse)
        ensures
            response.took_ms == took_ms,
            response.results@.len() == results@.len(),
            forall|i: int|
                0 <= i < results@.len() ==> (#[trigger] response.results@[i]).memory.shows(
                    results@[i].memory@,
                ) && response.results@[i].score == results@[i].score
                    && response.results@[i].matched.vector_rank
                    == results@[i].match_detail.vector_rank
                    && response.results@[i].matched.bm25_rank == results@[i].match_detail.bm25_rank,
    {
        let mut hits: Vec<SearchHit> = Vec::new();
        let mut i: usize = 0;
        while i < results.len()
            invariant
                0 <= i <= results@.len(),
                hits@.len() == i,
                forall|j: int|
                    0 <= j < i ==> (#[trigger] hits@[j]).memory.shows(results@[j].memory@)
                        && hits@[j].score == results@[j].score && hits@[j].matched.vector_rank
                        == results@[j].match_detail.vector_rank && hits@[j].matched.bm25_rank
                        == results@[j].match_detail.bm25_rank,
            decreases results@.len() - i,
        {
            hits.push(SearchHit::from(&results[i]));
            i += 1;
        }
        SearchResponse { results: hits, took_ms }
    }
}

/// A line of the audit trail as it is answered.
#[derive(Debug)]
pub struct AuditEntryResponse {
    pub memory_id: String,
    pub operation: String,
    pub actor: String,
    /// Left out of the answer where it is empty.
    pub detail: String,
    pub at: Timestamp,
}

impl AuditEntryResponse {
    pub open spec fn shows(self, entry: AuditEntry) -> bool {
        &&& self.memory_id@ == entry.memory_id.text()
        &&& self.operation@ == entry.operation.name()
        &&& self.actor@ == entry.actor@
        &&& self.detail@ == entry.detail@
        &&& self.at == entry.at
    }

    pub fn from(entry: &AuditEntry) -> (response: AuditEntryResponse)
        ensures
            response.shows(*entry),
    {
        AuditEntryResponse {
            memory_id: entry.memory_id.to_text(),
            operation: entry.operation.as_str().to_owned(),
            actor: entry.actor.clone(),
            detail: entry.detail.clone(),
            at: entry.at,
        }
    }
}

#[derive(Debug)]
pub struct AuditResponse {
    pub entries: Vec<AuditEntryResponse>,
}

impl AuditResponse {
    pub fn from(entries: &Vec<AuditEntry>) -> (response: AuditResponse)
        ensures
            response.entries@.len() == entries@.len(),
            forall|i: int|
                0 <= i < entries@.len() ==> (#[trigger] response.entries@[i]).shows(entries@[i]),
    {
        let mut shown: Vec<AuditEntryResponse> = Vec::new();
        let mut i: usize = 0;
        while i < entries.len()
            invariant
                0 <= i <= entries@.len(),
                shown@.len() == i,
                forall|j: int| 0 <= j < i ==> (#[trigger] shown@[j]).shows(entries@[j]),
            decreases entries@.len() - i,
        {
            shown.push(AuditEntryResponse::from(&entries[i]));
            i += 1;
        }
        AuditResponse { entries: shown }
    }
}

/// A list of names is refused for the first of them that denotes no category,
/// and accepted where there is none.
pub proof fn the_first_unknown_name_is_told(names: Seq<Seq<char>>, extras: Seq<Seq<char>>)
    ensures
        match first_unknown(names, extras) {
            Some(name) => exists|i: int|
                0 <= i < names.len() && #[trigger] names[i] == name && category_of(name, extras)
                    is None && forall|j: int|
                    0 <= j < i ==> category_of(#[trigger] names[j], extras) is Some,
            None => forall|i: int|
                0 <= i < names.len() ==> category_of(#[trigger] names[i], extras) is Some,
        },
    decreases names.len(),
{
    if names.len() > 0 {
        let shorter = names.drop_last();
        the_first_unknown_name_is_told(shorter, extras);
        match first_unknown(shorter, extras) {
            Some(name) => {
                let i = choose|i: int|
                    0 <= i < shorter.len() && #[trigger] shorter[i] == name && category_of(
                        name,
                        extras,
                    ) is None && forall|j: int|
                        0 <= j < i ==> category_of(#[trigger] shorter[j], extras) is Some;
                assert(names[i] == name);
                assert forall|j: int| 0 <= j < i implies category_of(#[trigger] names[j], extras)
                    is Some by {
                    assert(shorter[j] == names[j]);
                }
            },
            None => {
                assert forall|i: int| 0 <= i < shorter.len() implies category_of(
                    #[trigger] names[i],
                    extras,
                ) is Some by {
                    assert(shorter[i] == names[i]);
                }
                let n = names.len() - 1;
                if category_of(names.last(), extras) is None {
                    assert(names[n] == names.last());
                }
            },
        }
    }
}

/// A search asks for what the request says: each category that it names, at its
/// place, the filters folded, the time, and as many results as it wants, up to
/// the ceiling, or as many as is usual.
pub proof fn searches_ask_what_the_request_says(
    request: SearchRequest,
    extras: Seq<Seq<char>>,
    default_limit: usize,
    i: int,
)
    requires
        first_unknown(texts(request.categories@), extras) is None,
    ensures
        ({
            let asked = request.asks(extras, default_limit);
            let wanted: int = match request.limit {
                Some(n) => n as int,
                None => default_limit as int,
            };
            &&& asked.text == trimmed(request.query@)
            &&& asked.categories.len() == request.categories@.len()
            &&& 0 <= i < request.categories@.len() ==> category_of(request.categories@[i]@, extras)
                == Some(asked.categories[i])
            &&& asked.subcategories == folded_filters(texts(request.subcategories@))
            &&& asked.tags == folded_filters(texts(request.tags@))
            &&& asked.since == request.since
            &&& asked.as_of is None
            &&& wanted <= 50 ==> asked.limit == wanted
            &&& wanted > 50 ==> asked.limit == 50
            &&& asked.include_superseded == request.include_superseded
        }),
{
    let names = texts(request.categories@);
    the_first_unknown_name_is_told(names, extras);
    if 0 <= i < names.len() {
        assert(category_of(names[i], extras) is Some);
    }
}

/// A save without a category is filed as a fact of the project, and with one
/// under the category that it names.
pub proof fn saves_are_filed_where_they_ask(name: String, extras: Seq<Seq<char>>)
    ensures
        requested_category(None, extras) == Some(CategoryView::FactProject),
        requested_category(Some(name), extras) == category_of(name@, extras),
{
}

/// An answer shows the memory that it is about: what it says, how it is filed,
/// and its times.
pub proof fn answers_show_their_memory(response: MemoryResponse, memory: MemoryView, i: int)
    requires
        response.shows(memory),
    ensures
        response.id@ == memory.id.text(),
        response.content@ == memory.content,
        response.category@ == memory.category.name(),
        response.subcategory matches Some(s) ==> memory.subcategory == Some(s@),
        response.subcategory is None ==> memory.subcategory is None,
        response.tags@.len() == memory.tags.len(),
        0 <= i < memory.tags.len() ==> response.tags@[i]@ == memory.tags[i],
        response.confidence == memory.confidence,
        response.created_at == memory.created_at,
        response.updated_at == memory.updated_at,
        response.expires_at == memory.expires_at,
        response.superseded_by matches Some(s) ==> memory.superseded_by matches Some(id) && s@
            == id.text(),
        response.superseded_by is None ==> memory.superseded_by is None,
{
    assert(texts(response.tags@).len() == response.tags@.len());
    if 0 <= i < memory.tags.len() {
        assert(texts(response.tags@)[i] == response.tags@[i]@);
    }
}

/// An answered line of the audit trail tells what was done to which memory, by
/// whom, when, and what about it: two lines that are shown alike say the same.
pub proof fn audit_lines_are_shown_in_full(
    response: AuditEntryResponse,
    entry: AuditEntry,
    other: AuditEntry,
)
    requires
        response.shows(entry),
        response.shows(other),
    ensures
        entry.memory_id == other.memory_id,
        entry.operation == other.operation,
        entry.actor@ == other.actor@,
        entry.detail@ == other.detail@,
        entry.at == other.at,
{
    crate::shared::ids::id_texts_order_as_numbers(entry.memory_id, other.memory_id);
    crate::shared::ids::id_texts_order_as_numbers(other.memory_id, entry.memory_id);
    crate::memories::domain::memory_repository::operations_round_trip(entry.operation);
    crate::memories::domain::memory_repository::operations_round_trip(other.operation);
}

} // verus!
