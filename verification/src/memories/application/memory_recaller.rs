//! Hybrid recall: the read path that the whole service exists to serve.
//!
//! Embeds the query, asks each index, fuses their rankings and applies the
//! caller's filters. The indexes do not know the filters, so each leg is
//! asked for several times as many candidates as are wanted.
use crate::memories::domain::category::Category;
use crate::memories::domain::embedder::{embed_one, EmbeddingTask};
use crate::memories::domain::entity_key::{canonical, distinct, distinct_keys, key_views, EntityKey};
use crate::memories::domain::memory::{holds_text, Memory, MemoryView};
use crate::memories::domain::recall_query::{category_views, QueryView, RecallQuery};
use crate::memories::domain::recall_ranker::{
    details_are_places, graph_terms_follow_the_graph_rank, is_detail, is_first_place, is_ranked,
    match_detail, memory_views, MatchDetail, RankedIds, RecallRanker, ScoreTerms, ScoredMemory,
};
use crate::shared::error::Result;
use crate::shared::ids::{holds_id, MemoryId};
use crate::shared::time::Timestamp;
use crate::text::{join, joined, split_words, texts, words};
use vstd::prelude::*;

verus! {

/// The longest entity name, in words, that a query is scanned for.
pub const MAX_SEED_WORDS: usize = 3;

/// The keys of the windows of one to three words that begin at a word.
pub open spec fn window_keys(list: Seq<Seq<char>>, start: int) -> Seq<Seq<char>> {
    let room = list.len() - start;
    Seq::new(
        (if room < MAX_SEED_WORDS {
            room as nat
        } else {
            MAX_SEED_WORDS as nat
        }),
        |k: int| canonical(joined(list.subrange(start, start + k + 1), seq![' '])),
    )
}

/// The keys of the windows that begin at one of the first `n` words.
pub open spec fn all_window_keys(list: Seq<Seq<char>>, n: nat) -> Seq<Seq<char>>
    decreases n,
{
    if n == 0 {
        Seq::empty()
    } else {
        all_window_keys(list, (n - 1) as nat) + window_keys(list, n - 1)
    }
}

/// The keys that a text may name: those of its windows of one to three words,
/// each once, none empty.
pub open spec fn seed_keys(text: Seq<char>) -> Seq<Seq<char>> {
    distinct_keys(all_window_keys(words(text), words(text).len()))
}

fn window_key(list: &Vec<String>, start: usize, finish: usize) -> (key: EntityKey)
    requires
        start <= finish <= list@.len(),
    ensures
        key@ == canonical(joined(texts(list@).subrange(start as int, finish as int), seq![' '])),
{
    let mut part: Vec<String> = Vec::new();
    let mut i: usize = start;
    while i < finish
        invariant
            start <= i <= finish <= list@.len(),
            part@ == list@.subrange(start as int, i as int),
        decreases finish - i,
    {
        part.push(list[i].clone());
        assert(list@.subrange(start as int, i + 1) =~= list@.subrange(start as int, i as int).push(
            list@[i as int],
        ));
        i += 1;
    }
    proof {
        assert(texts(part@) =~= texts(list@).subrange(start as int, finish as int));
        reveal_strlit(" ");
        assert(" "@ =~= seq![' ']);
    }
    EntityKey::new(join(&part, " ").as_str())
}

/// Every window of one to three words of a query, canonicalised as the
/// writers file their entities: `the billing service team` offers `billing
/// service` and `billing service team`.
pub fn seed_candidates(text: &str) -> (candidates: Vec<EntityKey>)
    ensures
        key_views(candidates@) == seed_keys(text@),
{
    let list = split_words(text);
    let ghost ws = words(text@);
    let mut all: Vec<EntityKey> = Vec::new();
    let mut start: usize = 0;
    assert(key_views(all@) =~= Seq::empty());
    while start < list.len()
        invariant
            0 <= start <= list@.len(),
            texts(list@) == ws,
            key_views(all@) == all_window_keys(ws, start as nat),
        decreases list@.len() - start,
    {
        let ghost before = all@;
        let end: usize = if list.len() - start < MAX_SEED_WORDS {
            list.len()
        } else {
            start + MAX_SEED_WORDS
        };
        let mut finish: usize = start;
        while finish < end
            invariant
                start <= finish <= end <= list@.len(),
                texts(list@) == ws,
                start < list@.len(),
                end == (if list@.len() - start < MAX_SEED_WORDS {
                    list@.len() as int
                } else {
                    start + MAX_SEED_WORDS
                }),
                key_views(all@) == key_views(before) + window_keys(ws, start as int).take(
                    finish - start,
                ),
            decreases end - finish,
        {
            finish += 1;
            let key = window_key(&list, start, finish);
            let ghost row = window_keys(ws, start as int);
            let ghost here = all@;
            let ghost added = key@;
            all.push(key);
            proof {
                assert(key_views(all@) =~= key_views(here).push(added));
                assert(row[finish - start - 1] == added);
                assert(row.take(finish - start) =~= row.take(finish - start - 1).push(added));
                assert(key_views(all@) =~= key_views(before) + row.take(finish - start));
            }
        }
        proof {
            let row = window_keys(ws, start as int);
            assert(row.take(end - start) =~= row);
        }
        start += 1;
    }
    distinct(&all)
}

/// Whether a memory passes the caller's filters.
pub open spec fn wanted(memory: MemoryView, query: QueryView, now: Timestamp) -> bool {
    &&& query.include_superseded || memory.is_active_at(now)
    &&& query.categories.len() == 0 || query.categories.contains(memory.category)
    &&& query.subcategories.len() == 0 || (memory.subcategory is Some
        && query.subcategories.contains(memory.subcategory->0))
    &&& forall|i: int|
        0 <= i < query.tags.len() ==> memory.tags.contains(#[trigger] query.tags[i])
    &&& query.since is Some ==> !memory.created_at.before(query.since->0)
}

fn holds_category(list: &Vec<Category>, category: &Category) -> (held: bool)
    ensures
        held == category_views(list@).contains(category@),
{
    let mut i: usize = 0;
    while i < list.len()
        invariant
            0 <= i <= list@.len(),
            forall|j: int| 0 <= j < i ==> #[trigger] category_views(list@)[j] != category@,
        decreases list@.len() - i,
    {
        assert(category_views(list@)[i as int] == list@[i as int]@);
        if list[i].same(category) {
            return true;
        }
        i += 1;
    }
    false
}

/// Whether a memory passes the caller's filters: categories and subcategories
/// widen, tags narrow.
pub fn matches(memory: &Memory, query: &RecallQuery, now: Timestamp) -> (passes: bool)
    ensures
        passes == wanted(memory@, query@, now),
{
    if !query.include_superseded() && !memory.is_active_at(now) {
        return false;
    }
    if query.categories().len() > 0 && !holds_category(query.categories(), memory.category()) {
        return false;
    }
    if query.subcategories().len() > 0 {
        match memory.subcategory() {
            Some(subcategory) => {
                if !holds_text(query.subcategories(), &subcategory.to_owned()) {
                    return false;
                }
            },
            None => return false,
        }
    }
    let tags = query.tags();
    let mut i: usize = 0;
    while i < tags.len()
        invariant
            0 <= i <= tags@.len(),
            texts(tags@) == query@.tags,
            forall|j: int| 0 <= j < i ==> memory@.tags.contains(#[trigger] query@.tags[j]),
        decreases tags@.len() - i,
    {
        assert(query@.tags[i as int] == tags@[i as int]@);
        if !holds_text(memory.tags(), &tags[i]) {
            return false;
        }
        i += 1;
    }
    match query.since() {
        Some(since) => !memory.created_at().is_before(&since),
        None => true,
    }
}

/// The memories that pass the caller's filters, in order.
pub open spec fn passing(memories: Seq<MemoryView>, query: QueryView, now: Timestamp) -> Seq<
    MemoryView,
>
    decreases memories.len(),
{
    if memories.len() == 0 {
        Seq::empty()
    } else {
        let earlier = passing(memories.drop_last(), query, now);
        if wanted(memories.last(), query, now) {
            earlier.push(memories.last())
        } else {
            earlier
        }
    }
}

fn keep_matching(memories: Vec<Memory>, query: &RecallQuery, now: Timestamp) -> (kept: Vec<Memory>)
    ensures
        memory_views(kept@) == passing(memory_views(memories@), query@, now),
{
    let mut kept: Vec<Memory> = Vec::new();
    let mut i: usize = 0;
    let ghost all = memory_views(memories@);
    assert(all.take(0) =~= Seq::empty());
    assert(memory_views(kept@) =~= Seq::empty());
    while i < memories.len()
        invariant
            0 <= i <= memories@.len(),
            all == memory_views(memories@),
            memory_views(kept@) == passing(all.take(i as int), query@, now),
        decreases memories@.len() - i,
    {
        proof {
            assert(all.take(i + 1).drop_last() =~= all.take(i as int));
            assert(all.take(i + 1).last() == memories@[i as int]@);
        }
        if matches(&memories[i], query, now) {
            let ghost before = kept@;
            let memory = memories[i].copy();
            let ghost added = memory@;
            kept.push(memory);
            assert(memory_views(kept@) =~= memory_views(before).push(added));
        }
        i += 1;
    }
    assert(all.take(all.len() as int) =~= all);
    kept
}

/// `ids` followed by those of `more` that are not there yet, each once.
pub open spec fn extended(ids: Seq<MemoryId>, more: Seq<MemoryId>) -> Seq<MemoryId>
    decreases more.len(),
{
    if more.len() == 0 {
        ids
    } else {
        let earlier = extended(ids, more.drop_last());
        if earlier.contains(more.last()) {
            earlier
        } else {
            earlier.push(more.last())
        }
    }
}

fn extend_ids(ids: Vec<MemoryId>, more: &Vec<MemoryId>) -> (all: Vec<MemoryId>)
    ensures
        all@ == extended(ids@, more@),
{
    let mut all = ids;
    let mut i: usize = 0;
    assert(more@.take(0) =~= Seq::empty());
    while i < more.len()
        invariant
            0 <= i <= more@.len(),
            all@ == extended(ids@, more@.take(i as int)),
        decreases more@.len() - i,
    {
        proof {
            assert(more@.take(i + 1).drop_last() =~= more@.take(i as int));
            assert(more@.take(i + 1).last() == more@[i as int]);
        }
        if !holds_id(&all, more[i]) {
            all.push(more[i]);
        }
        i += 1;
    }
    assert(more@.take(more@.len() as int) =~= more@);
    all
}

fn copy_ids(ids: &Vec<MemoryId>) -> (copy: Vec<MemoryId>)
    ensures
        copy@ == ids@,
{
    let mut copy: Vec<MemoryId> = Vec::new();
    let mut i: usize = 0;
    while i < ids.len()
        invariant
            0 <= i <= ids@.len(),
            copy@ == ids@.take(i as int),
        decreases ids@.len() - i,
    {
        copy.push(ids[i]);
        assert(ids@.take(i + 1) =~= ids@.take(i as int).push(ids@[i as int]));
        i += 1;
    }
    assert(ids@.take(ids@.len() as int) =~= ids@);
    copy
}

/// What the legs have answered so far.
#[derive(Debug)]
pub struct Legs {
    pub vector: RankedIds,
    pub keyword: RankedIds,
    pub graph: RankedIds,
}

impl Legs {
    /// Every memory that a leg has, the vector leg's first.
    pub open spec fn candidates(self) -> Seq<MemoryId> {
        extended(extended(self.vector.0@, self.keyword.0@), self.graph.0@)
    }
}

/// What recall does next.
#[derive(Debug)]
pub enum RecallStep {
    /// Embed a text for a task.
    Embed { text: String, task: EmbeddingTask },
    /// Find the nearest vectors.
    SearchVectors { embedding: Vec<u32>, depth: usize },
    /// Find the best keyword matches for a text.
    SearchText { text: String, depth: usize, legs: Legs },
    /// Find which of the keys the user's graph knows.
    FindSeeds { keys: Vec<EntityKey>, legs: Legs },
    /// Walk the user's graph from the seeds, as it was at a point in time or
    /// as it is now.
    Walk {
        seeds: Vec<EntityKey>,
        hops: usize,
        as_of: Option<Timestamp>,
        limit: usize,
        legs: Legs,
    },
    /// Fetch the candidates.
    Fetch { ids: Vec<MemoryId>, legs: Legs },
    /// Compute each candidate's score from its terms.
    Score { candidates: Vec<Memory>, terms: Vec<ScoreTerms>, legs: Legs },
    /// Record when the results were read.
    Touch { ids: Vec<MemoryId>, at: Timestamp, ranked: Vec<ScoredMemory> },
    Done(Result<Vec<ScoredMemory>>),
}

/// `terms` are what each candidate's score is computed from.
pub open spec fn are_terms(
    terms: Seq<ScoreTerms>,
    candidates: Seq<MemoryView>,
    legs: Legs,
    ranker: RecallRanker,
    now: Timestamp,
) -> bool {
    &&& terms.len() == candidates.len()
    &&& forall|i: int|
        0 <= i < terms.len() ==> has_term(#[trigger] terms[i], candidates[i], legs, ranker, now)
}

/// `term` is what the memory's score is computed from, given the legs.
pub open spec fn has_term(
    term: ScoreTerms,
    memory: MemoryView,
    legs: Legs,
    ranker: RecallRanker,
    now: Timestamp,
) -> bool {
    exists|detail: MatchDetail|
        is_detail(detail, legs.vector.0@, legs.keyword.0@, legs.graph.0@, memory.id)
            && #[trigger] is_term(term, memory, detail, ranker, now)
}

/// `term` is what the memory's score is computed from, found as it was.
pub open spec fn is_term(
    term: ScoreTerms,
    memory: MemoryView,
    detail: MatchDetail,
    ranker: RecallRanker,
    now: Timestamp,
) -> bool {
    &&& term.vector_rank == detail.vector_rank
    &&& term.bm25_rank == detail.bm25_rank
    &&& term.graph == ranker.graph_term(detail)
    &&& term.graph_weight == ranker.weight()
    &&& term.age_seconds == now.age_since(memory.created_at)
    &&& term.half_life_days == ranker.half_life()
    &&& term.confidence == memory.confidence
    &&& term.importance == memory.importance
}

/// `ranked` are the best `limit` of the candidates that a leg has, best first.
pub open spec fn is_best(
    ranked: Seq<ScoredMemory>,
    legs: Legs,
    candidates: Seq<MemoryView>,
    scores: Seq<u32>,
    limit: nat,
) -> bool {
    exists|all: Seq<ScoredMemory>|
        #[trigger] is_ranked(
            all,
            legs.vector.0@,
            legs.keyword.0@,
            legs.graph.0@,
            candidates,
            scores,
        ) && ranked == (if all.len() <= limit {
            all
        } else {
            all.take(limit as int)
        })
}

/// The identifiers of results.
pub open spec fn result_ids(ranked: Seq<ScoredMemory>) -> Seq<MemoryId> {
    ranked.map_values(|s: ScoredMemory| s.memory@.id)
}

pub struct MemoryRecaller {
    pub ranker: RecallRanker,
    /// Whether the third leg runs at all.
    pub has_graph: bool,
    /// How many edges a walk may cross.
    pub max_hops: usize,
    /// How many memories a walk may answer.
    pub hop_limit: usize,
}

/// What follows once all legs have answered.
pub open spec fn gathered(step: RecallStep, legs: Legs) -> bool {
    if legs.candidates().len() == 0 {
        step matches RecallStep::Done(Ok(none)) && none@.len() == 0
    } else {
        step matches RecallStep::Fetch { ids, legs: l } && ids@ == legs.candidates() && l == legs
    }
}

impl MemoryRecaller {
    pub fn new(ranker: RecallRanker, has_graph: bool, max_hops: usize, hop_limit: usize) -> (recaller:
        MemoryRecaller)
        ensures
            recaller.ranker == ranker,
            recaller.has_graph == has_graph,
            recaller.max_hops == max_hops,
            recaller.hop_limit == hop_limit,
    {
        MemoryRecaller { ranker, has_graph, max_hops, hop_limit }
    }

    /// Recall begins with the vector of the query's text, embedded as a query.
    pub fn begin(&self, query: &RecallQuery) -> (step: RecallStep)
        ensures
            step matches RecallStep::Embed { text, task } && text@ == query@.text && task is Query,
    {
        RecallStep::Embed { text: query.text().to_owned(), task: EmbeddingTask::Query }
    }

    /// Without a vector there is no recall.
    pub fn embedded(&self, query: &RecallQuery, reply: Result<Vec<Vec<u32>>>) -> (step: RecallStep)
        ensures
            match reply {
                Ok(vectors) => if vectors@.len() > 0 {
                    step matches RecallStep::SearchVectors { embedding, depth } && embedding
                        == vectors@.last() && depth == query@.depth()
                } else {
                    step matches RecallStep::Done(Err(e)) && e is Internal && e.text()
                        == "embedder returned no vector for one input"@
                },
                Err(error) => step == RecallStep::Done(Err(error)),
            },
    {
        match reply {
            Ok(vectors) => match embed_one(vectors) {
                Ok(embedding) => RecallStep::SearchVectors {
                    embedding,
                    depth: query.candidate_depth(),
                },
                Err(error) => RecallStep::Done(Err(error)),
            },
            Err(error) => RecallStep::Done(Err(error)),
        }
    }

    /// A failed vector search fails the recall.
    pub fn vectors_found(&self, query: &RecallQuery, reply: Result<Vec<MemoryId>>) -> (step:
        RecallStep)
        ensures
            match reply {
                Ok(ids) => step matches RecallStep::SearchText { text, depth, legs } && text@
                    == query@.text && depth == query@.depth() && legs.vector.0 == ids
                    && legs.keyword.0@.len() == 0 && legs.graph.0@.len() == 0,
                Err(error) => step == RecallStep::Done(Err(error)),
            },
    {
        match reply {
            Ok(ids) => RecallStep::SearchText {
                text: query.text().to_owned(),
                depth: query.candidate_depth(),
                legs: Legs {
                    vector: RankedIds(ids),
                    keyword: RankedIds::default(),
                    graph: RankedIds::default(),
                },
            },
            Err(error) => RecallStep::Done(Err(error)),
        }
    }

    /// A failed keyword search degrades the result: half a hybrid search
    /// still answers the question.
    pub fn text_found(&self, query: &RecallQuery, legs: Legs, reply: Result<Vec<MemoryId>>) -> (step:
        RecallStep)
        ensures
            ({
                let after = Legs {
                    keyword: match reply {
                        Ok(ids) => RankedIds(ids),
                        Err(_) => legs.keyword,
                    },
                    ..legs
                };
                if self.has_graph {
                    step matches RecallStep::FindSeeds { keys, legs: l } && key_views(keys@)
                        == seed_keys(query@.text) && l == after
                } else {
                    gathered(step, after)
                }
            }),
    {
        let after = match reply {
            Ok(ids) => Legs { vector: legs.vector, keyword: RankedIds(ids), graph: legs.graph },
            Err(_) => legs,
        };
        if self.has_graph {
            RecallStep::FindSeeds { keys: seed_candidates(query.text()), legs: after }
        } else {
            self.gather(after)
        }
    }

    /// A query that names nothing known leaves the graph leg silent, and so
    /// does a failed lookup.
    pub fn seeds_found(
        &self,
        query: &RecallQuery,
        legs: Legs,
        reply: Result<Vec<EntityKey>>,
    ) -> (step: RecallStep)
        ensures
            match reply {
                Ok(seeds) => if seeds@.len() > 0 {
                    step == (RecallStep::Walk {
                        seeds,
                        hops: self.max_hops,
                        as_of: query@.as_of,
                        limit: self.hop_limit,
                        legs,
                    })
                } else {
                    gathered(step, legs)
                },
                Err(_) => gathered(step, legs),
            },
    {
        match reply {
            Ok(seeds) => {
                if seeds.len() > 0 {
                    RecallStep::Walk {
                        seeds,
                        hops: self.max_hops,
                        as_of: query.as_of(),
                        limit: self.hop_limit,
                        legs,
                    }
                } else {
                    self.gather(legs)
                }
            },
            Err(_) => self.gather(legs),
        }
    }

    /// A failed walk degrades the result.
    pub fn walked(&self, legs: Legs, reply: Result<Vec<MemoryId>>) -> (step: RecallStep)
        ensures
            gathered(
                step,
                Legs {
                    graph: match reply {
                        Ok(ids) => RankedIds(ids),
                        Err(_) => legs.graph,
                    },
                    ..legs
                },
            ),
    {
        let after = match reply {
            Ok(ids) => Legs { vector: legs.vector, keyword: legs.keyword, graph: RankedIds(ids) },
            Err(_) => legs,
        };
        self.gather(after)
    }

    fn gather(&self, legs: Legs) -> (step: RecallStep)
        ensures
            gathered(step, legs),
    {
        let first = extend_ids(copy_ids(&legs.vector.0), &legs.keyword.0);
        let ids = extend_ids(first, &legs.graph.0);
        if ids.len() == 0 {
            RecallStep::Done(Ok(Vec::new()))
        } else {
            RecallStep::Fetch { ids, legs }
        }
    }

    /// The fetched memories that pass the filters, with what their scores
    /// are computed from.
    pub fn fetched(
        &self,
        query: &RecallQuery,
        now: Timestamp,
        legs: Legs,
        reply: Result<Vec<Memory>>,
    ) -> (step: RecallStep)
        ensures
            match reply {
                Ok(memories) => step matches RecallStep::Score { candidates, terms, legs: l }
                    && memory_views(candidates@) == passing(memory_views(memories@), query@, now)
                    && are_terms(terms@, memory_views(candidates@), legs, self.ranker, now) && l
                    == legs,
                Err(error) => step == RecallStep::Done(Err(error)),
            },
    {
        match reply {
            Ok(memories) => {
                let candidates = keep_matching(memories, query, now);
                let mut terms: Vec<ScoreTerms> = Vec::new();
                let mut i: usize = 0;
                while i < candidates.len()
                    invariant
                        0 <= i <= candidates@.len(),
                        are_terms(
                            terms@,
                            memory_views(candidates@).take(i as int),
                            legs,
                            self.ranker,
                            now,
                        ),
                    decreases candidates@.len() - i,
                {
                    let detail = match_detail(
                        &legs.vector,
                        &legs.keyword,
                        &legs.graph,
                        candidates[i].id(),
                    );
                    let ghost before = terms@;
                    let term = self.ranker.score_terms(&candidates[i], detail, now);
                    terms.push(term);
                    proof {
                        let grown = memory_views(candidates@).take(i + 1);
                        let shorter = memory_views(candidates@).take(i as int);
                        assert(is_term(term, candidates@[i as int]@, detail, self.ranker, now));
                        assert forall|j: int| 0 <= j < terms@.len() implies has_term(
                            #[trigger] terms@[j],
                            grown[j],
                            legs,
                            self.ranker,
                            now,
                        ) by {
                            if j < i {
                                assert(grown[j] == shorter[j] && terms@[j] == before[j]);
                                assert(has_term(before[j], shorter[j], legs, self.ranker, now));
                            } else {
                                assert(grown[j] == candidates@[i as int]@);
                            }
                        }
                    }
                    i += 1;
                }
                proof {
                    let views = memory_views(candidates@);
                    assert(views.take(views.len() as int) =~= views);
                }
                RecallStep::Score { candidates, terms, legs }
            },
            Err(error) => RecallStep::Done(Err(error)),
        }
    }

    /// The best of the candidates, and whose reading is to be recorded.
    pub fn scored(
        &self,
        query: &RecallQuery,
        now: Timestamp,
        legs: Legs,
        candidates: Vec<Memory>,
        scores: Vec<u32>,
    ) -> (step: RecallStep)
        requires
            scores@.len() == candidates@.len(),
        ensures
            step matches RecallStep::Touch { ids, at, ranked } && is_best(
                ranked@,
                legs,
                memory_views(candidates@),
                scores@,
                query@.limit,
            ) && ids@ == result_ids(ranked@) && at == now,
    {
        let mut ranked = self.ranker.rank_with_graph(
            &legs.vector,
            &legs.keyword,
            &legs.graph,
            &candidates,
            &scores,
        );
        let ghost all = ranked@;
        ranked.truncate(query.limit());
        proof {
            assert(ranked@ =~= (if all.len() <= query@.limit {
                all
            } else {
                all.take(query@.limit as int)
            }));
        }
        let mut ids: Vec<MemoryId> = Vec::new();
        let mut i: usize = 0;
        while i < ranked.len()
            invariant
                0 <= i <= ranked@.len(),
                ids@ == result_ids(ranked@.take(i as int)),
            decreases ranked@.len() - i,
        {
            ids.push(ranked[i].memory.id());
            assert(result_ids(ranked@.take(i + 1)) =~= result_ids(ranked@.take(i as int)).push(
                ranked@[i as int].memory@.id,
            ));
            i += 1;
        }
        assert(ranked@.take(ranked@.len() as int) =~= ranked@);
        RecallStep::Touch { ids, at: now, ranked }
    }

    /// A failure to record the reading does not fail it.
    pub fn touched(&self, ranked: Vec<ScoredMemory>, reply: Result<()>) -> (step: RecallStep)
        ensures
            step == RecallStep::Done(Ok(ranked)),
    {
        RecallStep::Done(Ok(ranked))
    }
}

proof fn lemma_extended(ids: Seq<MemoryId>, more: Seq<MemoryId>, id: MemoryId)
    ensures
        extended(ids, more).contains(id) <==> ids.contains(id) || more.contains(id),
    decreases more.len(),
{
    if more.len() > 0 {
        let earlier = extended(ids, more.drop_last());
        lemma_extended(ids, more.drop_last(), id);
        assert(more[more.len() - 1] == more.last());
        if more.contains(id) {
            let i = choose|i: int| 0 <= i < more.len() && more[i] == id;
            if i < more.len() - 1 {
                assert(more.drop_last()[i] == id);
            }
        }
        if more.drop_last().contains(id) {
            let i = choose|i: int| 0 <= i < more.drop_last().len() && more.drop_last()[i] == id;
            assert(more[i] == id);
        }
        if !earlier.contains(more.last()) {
            let grown = earlier.push(more.last());
            assert(grown[earlier.len() as int] == more.last());
            if earlier.contains(id) {
                let i = choose|i: int| 0 <= i < earlier.len() && earlier[i] == id;
                assert(grown[i] == id);
            }
            if grown.contains(id) {
                let i = choose|i: int| 0 <= i < grown.len() && grown[i] == id;
                if i < earlier.len() {
                    assert(earlier[i] == id);
                }
            }
        } else {
            lemma_extended(ids, more.drop_last(), more.last());
        }
    }
}

/// What is fetched is what some leg has, no more and no less.
pub proof fn candidates_come_from_the_legs(legs: Legs, id: MemoryId)
    ensures
        legs.candidates().contains(id) <==> legs.vector.0@.contains(id)
            || legs.keyword.0@.contains(id) || legs.graph.0@.contains(id),
{
    lemma_extended(legs.vector.0@, legs.keyword.0@, id);
    lemma_extended(extended(legs.vector.0@, legs.keyword.0@), legs.graph.0@, id);
}

/// A result is active, in a wanted category and subcategory, carries every
/// wanted tag and is recent enough: filtering lets nothing else through, and
/// drops nothing that passes.
pub proof fn filters_are_exact(
    memories: Seq<MemoryView>,
    query: QueryView,
    now: Timestamp,
    m: MemoryView,
)
    ensures
        passing(memories, query, now).contains(m) <==> memories.contains(m) && wanted(
            m,
            query,
            now,
        ),
    decreases memories.len(),
{
    if memories.len() > 0 {
        let shorter = memories.drop_last();
        let earlier = passing(shorter, query, now);
        let all = passing(memories, query, now);
        filters_are_exact(shorter, query, now, m);
        assert(memories[memories.len() - 1] == memories.last());
        if all.contains(m) {
            let i = choose|i: int| 0 <= i < all.len() && all[i] == m;
            if i < earlier.len() {
                assert(earlier[i] == m);
                let j = choose|j: int| 0 <= j < shorter.len() && shorter[j] == m;
                assert(memories[j] == m);
            }
        }
        if memories.contains(m) && wanted(m, query, now) {
            let j = choose|j: int| 0 <= j < memories.len() && memories[j] == m;
            if j < shorter.len() {
                assert(shorter[j] == m);
                let i = choose|i: int| 0 <= i < earlier.len() && earlier[i] == m;
                assert(all[i] == m);
            } else {
                assert(all[earlier.len() as int] == m);
            }
        }
    }
}

/// Recall never answers more than was asked for, nor more than the ceiling.
pub proof fn results_respect_the_limit(
    ranked: Seq<ScoredMemory>,
    legs: Legs,
    candidates: Seq<MemoryView>,
    scores: Seq<u32>,
    limit: nat,
)
    requires
        is_best(ranked, legs, candidates, scores, limit),
    ensures
        ranked.len() <= limit,
{
}

/// An ordinary recall never answers a memory that was superseded or has
/// expired.
pub proof fn inactive_memories_stay_hidden(memory: MemoryView, query: QueryView, now: Timestamp)
    requires
        !query.include_superseded,
        wanted(memory, query, now),
    ensures
        !memory.is_superseded(),
        !memory.is_expired_at(now),
{
}

/// Filters are read one by one. A memory passes if it is active, or inactive
/// ones are wanted; if no category is asked for, or its own is any of those
/// asked for, at whatever place; likewise its subcategory; if each tag that is
/// asked for is one of its own; and if it was not made before the time that is
/// asked for.
pub proof fn each_filter_is_read_in_full(memory: MemoryView, query: QueryView, now: Timestamp)
    ensures
        wanted(memory, query, now) <==> {
            &&& query.include_superseded || (memory.superseded_by is None && (memory.expires_at is None
                || now.before(memory.expires_at->0)))
            &&& query.categories.len() == 0 || exists|i: int|
                0 <= i < query.categories.len() && #[trigger] query.categories[i] == memory.category
            &&& query.subcategories.len() == 0 || exists|i: int|
                0 <= i < query.subcategories.len() && Some(#[trigger] query.subcategories[i])
                    == memory.subcategory
            &&& forall|tag: Seq<char>| #[trigger]
                query.tags.contains(tag) ==> memory.tags.contains(tag)
            &&& query.since matches Some(since) ==> !memory.created_at.before(since)
        },
{
    let tags_held = forall|tag: Seq<char>| #[trigger]
        query.tags.contains(tag) ==> memory.tags.contains(tag);
    if wanted(memory, query, now) {
        assert forall|tag: Seq<char>| #[trigger] query.tags.contains(tag) implies memory.tags.contains(
            tag,
        ) by {
            let i = choose|i: int| 0 <= i < query.tags.len() && query.tags[i] == tag;
            assert(memory.tags.contains(query.tags[i]));
        }
    }
    if tags_held {
        assert forall|i: int| 0 <= i < query.tags.len() implies memory.tags.contains(
            #[trigger] query.tags[i],
        ) by {
            assert(query.tags.contains(query.tags[i]));
        }
    }
    if memory.subcategory is Some {
        let name = memory.subcategory->0;
        assert(query.subcategories.contains(name) <==> exists|i: int|
            0 <= i < query.subcategories.len() && Some(#[trigger] query.subcategories[i])
                == memory.subcategory);
    }
}

/// Without other filters an active memory passes if and only if no category is
/// asked for or its own is somewhere in the list.
pub proof fn a_memory_of_any_listed_category_passes(
    memory: MemoryView,
    query: QueryView,
    now: Timestamp,
)
    requires
        memory.superseded_by is None,
        memory.expires_at is None,
        query.subcategories.len() == 0,
        query.tags.len() == 0,
        query.since is None,
    ensures
        wanted(memory, query, now) <==> query.categories.len() == 0 || exists|i: int|
            0 <= i < query.categories.len() && #[trigger] query.categories[i] == memory.category,
{
    each_filter_is_read_in_full(memory, query, now);
}

/// Asking for one category or subcategory more, where some are asked for, never
/// drops a memory; asking for one tag more never lets one in.
pub proof fn categories_widen_and_tags_narrow(
    memory: MemoryView,
    query: QueryView,
    now: Timestamp,
    category: crate::memories::domain::category::CategoryView,
    name: Seq<char>,
)
    ensures
        query.categories.len() > 0 && wanted(memory, query, now) ==> wanted(
            memory,
            QueryView { categories: query.categories.push(category), ..query },
            now,
        ),
        query.subcategories.len() > 0 && wanted(memory, query, now) ==> wanted(
            memory,
            QueryView { subcategories: query.subcategories.push(name), ..query },
            now,
        ),
        wanted(memory, QueryView { tags: query.tags.push(name), ..query }, now) ==> wanted(
            memory,
            query,
            now,
        ) && memory.tags.contains(name),
{
    let wider = query.categories.push(category);
    if query.categories.contains(memory.category) {
        let i = choose|i: int|
            0 <= i < query.categories.len() && query.categories[i] == memory.category;
        assert(wider[i] == memory.category);
    }
    let named = query.subcategories.push(name);
    if memory.subcategory is Some && query.subcategories.contains(memory.subcategory->0) {
        let i = choose|i: int|
            0 <= i < query.subcategories.len() && query.subcategories[i] == memory.subcategory->0;
        assert(named[i] == memory.subcategory->0);
    }
    let tagged = query.tags.push(name);
    let narrower = QueryView { tags: tagged, ..query };
    if wanted(memory, narrower, now) {
        assert(narrower.tags[query.tags.len() as int] == name);
        assert forall|i: int| 0 <= i < query.tags.len() implies memory.tags.contains(
            #[trigger] query.tags[i],
        ) by {
            assert(narrower.tags[i] == query.tags[i]);
        }
    }
}

/// Filtering keeps the order of what passes: it is what `filter` leaves of the
/// list.
pub proof fn filtering_keeps_the_order(
    memories: Seq<MemoryView>,
    query: QueryView,
    now: Timestamp,
)
    ensures
        passing(memories, query, now) == memories.filter(|m: MemoryView| wanted(m, query, now)),
    decreases memories.len(),
{
    let p = |m: MemoryView| wanted(m, query, now);
    reveal(Seq::filter);
    if memories.len() > 0 {
        filtering_keeps_the_order(memories.drop_last(), query, now);
    }
}

/// A window of a text: the key of the `n` words from the `i`th on.
pub open spec fn window(text: Seq<char>, i: int, n: int) -> Seq<char> {
    canonical(joined(words(text).subrange(i, i + n), seq![' ']))
}

/// The key of the `n` words from the `i`th on of a list.
#[verifier::opaque]
spec fn key_at(list: Seq<Seq<char>>, i: int, n: int) -> Seq<char> {
    canonical(joined(list.subrange(i, i + n), seq![' ']))
}

proof fn lemma_row(list: Seq<Seq<char>>, start: int)
    requires
        0 <= start < list.len(),
    ensures
        window_keys(list, start).len() == (if list.len() - start < 3 {
            list.len() - start
        } else {
            3
        }),
        forall|k: int|
            0 <= k < window_keys(list, start).len() ==> #[trigger] window_keys(list, start)[k]
                == key_at(list, start, k + 1),
{
    reveal(key_at);
}

/// Whether a key is that of a window that begins at one of the first `m` words.
spec fn is_window_key(list: Seq<Seq<char>>, m: nat, key: Seq<char>) -> bool {
    exists|i: int, n: int|
        0 <= i < m && 1 <= n <= 3 && i + n <= list.len() && #[trigger] key_at(list, i, n) == key
}

#[verifier::spinoff_prover]
proof fn lemma_window_keys(list: Seq<Seq<char>>, m: nat, key: Seq<char>)
    requires
        m <= list.len(),
    ensures
        all_window_keys(list, m).contains(key) <==> is_window_key(list, m, key),
    decreases m,
{
    if m > 0 {
        let earlier = all_window_keys(list, (m - 1) as nat);
        let row = window_keys(list, m - 1);
        let all = all_window_keys(list, m);
        lemma_window_keys(list, (m - 1) as nat, key);
        lemma_row(list, m - 1);
        lemma_split(earlier, row, key);
        if is_window_key(list, m, key) {
            let (i, n) = choose|i: int, n: int|
                0 <= i < m && 1 <= n <= 3 && i + n <= list.len() && #[trigger] key_at(list, i, n)
                    == key;
            if i < m - 1 {
                assert(is_window_key(list, (m - 1) as nat, key));
            } else {
                assert(row[n - 1] == key);
            }
        }
        if row.contains(key) {
            let k = choose|k: int| 0 <= k < row.len() && row[k] == key;
            assert(key_at(list, m - 1, k + 1) == key);
        }
        if is_window_key(list, (m - 1) as nat, key) {
            let (i, n) = choose|i: int, n: int|
                0 <= i < m - 1 && 1 <= n <= 3 && i + n <= list.len() && #[trigger] key_at(
                    list,
                    i,
                    n,
                ) == key;
            assert(key_at(list, i, n) == key);
        }
    }
}

/// A list of two halves has what one of them has.
proof fn lemma_split(a: Seq<Seq<char>>, b: Seq<Seq<char>>, x: Seq<char>)
    ensures
        (a + b).contains(x) <==> a.contains(x) || b.contains(x),
{
    let all = a + b;
    if a.contains(x) {
        let i = choose|i: int| 0 <= i < a.len() && a[i] == x;
        assert(all[i] == x);
    }
    if b.contains(x) {
        let i = choose|i: int| 0 <= i < b.len() && b[i] == x;
        assert(all[a.len() + i] == x);
    }
    if all.contains(x) {
        let i = choose|i: int| 0 <= i < all.len() && all[i] == x;
        if i < a.len() {
            assert(a[i] == x);
        } else {
            assert(b[i - a.len()] == x);
        }
    }
}

/// The key of every window of one, two or three words, wherever it begins, is
/// among those that a query is scanned for, unless it is empty; and nothing
/// else is.
pub proof fn every_window_is_a_candidate(text: Seq<char>, key: Seq<char>)
    ensures
        seed_keys(text).contains(key) <==> key.len() > 0 && exists|i: int, n: int|
            0 <= i && 1 <= n <= 3 && i + n <= words(text).len() && #[trigger] window(text, i, n)
                == key,
{
    let list = words(text);
    let all = all_window_keys(list, list.len());
    crate::memories::domain::entity_key::distinct_keys_hold_the_same(all, key);
    lemma_window_keys(list, list.len(), key);
    assert forall|i: int, n: int| key_at(list, i, n) == #[trigger] window(text, i, n) by {
        reveal(key_at);
    }
    if exists|i: int, n: int|
        0 <= i && 1 <= n <= 3 && i + n <= list.len() && #[trigger] window(text, i, n) == key {
        let (i, n) = choose|i: int, n: int|
            0 <= i && 1 <= n <= 3 && i + n <= list.len() && #[trigger] window(text, i, n) == key;
        assert(key_at(list, i, n) == key);
    }
    if all.contains(key) {
        let (i, n) = choose|i: int, n: int|
            0 <= i < list.len() && 1 <= n <= 3 && i + n <= list.len() && #[trigger] key_at(
                list,
                i,
                n,
            ) == key;
        assert(window(text, i, n) == key);
    }
}

/// A word of a query is a candidate by itself, under its own key.
pub proof fn every_word_is_a_candidate(text: Seq<char>, i: int)
    requires
        0 <= i < words(text).len(),
        canonical(words(text)[i]).len() > 0,
    ensures
        seed_keys(text).contains(canonical(words(text)[i])),
{
    let list = words(text);
    assert(list.subrange(i, i + 1) =~= seq![list[i]]);
    assert(window(text, i, 1) == canonical(list[i]));
    every_window_is_a_candidate(text, canonical(list[i]));
}

/// No candidate is offered twice.
pub proof fn candidates_are_offered_once(text: Seq<char>)
    ensures
        seed_keys(text).no_duplicates(),
{
    crate::memories::domain::entity_key::distinct_keys_are_distinct(
        all_window_keys(words(text), words(text).len()),
    );
}

/// What is fetched is fetched once, what the vector leg has first and in its
/// order.
pub proof fn candidates_are_fetched_once(legs: Legs)
    requires
        legs.vector.0@.no_duplicates(),
    ensures
        legs.candidates().no_duplicates(),
        legs.vector.0@.is_prefix_of(legs.candidates()),
{
    let first = extended(legs.vector.0@, legs.keyword.0@);
    lemma_extended_once(legs.vector.0@, legs.keyword.0@);
    lemma_extended_once(first, legs.graph.0@);
}

proof fn lemma_extended_once(ids: Seq<MemoryId>, more: Seq<MemoryId>)
    requires
        ids.no_duplicates(),
    ensures
        extended(ids, more).no_duplicates(),
        ids.is_prefix_of(extended(ids, more)),
    decreases more.len(),
{
    if more.len() > 0 {
        let earlier = extended(ids, more.drop_last());
        lemma_extended_once(ids, more.drop_last());
        if !earlier.contains(more.last()) {
            let grown = earlier.push(more.last());
            assert forall|i: int, j: int| 0 <= i < j < grown.len() implies grown[i] != grown[j] by {
                if j == earlier.len() {
                    assert(earlier.contains(earlier[i]));
                }
            }
            assert(ids =~= grown.subrange(0, ids.len() as int));
        }
    } else {
        assert(ids =~= ids.subrange(0, ids.len() as int));
    }
}

/// What a score is computed from is the memory's own: its ranks in the legs,
/// its age, its confidence and its importance.
pub proof fn terms_are_the_memorys_own(
    term: ScoreTerms,
    memory: MemoryView,
    legs: Legs,
    ranker: RecallRanker,
    now: Timestamp,
)
    requires
        has_term(term, memory, legs, ranker, now),
    ensures
        term.vector_rank is Some <==> legs.vector.0@.contains(memory.id),
        term.bm25_rank is Some <==> legs.keyword.0@.contains(memory.id),
        term.graph is Some <==> legs.graph.0@.contains(memory.id),
        term.vector_rank matches Some(r) ==> is_first_place(r, legs.vector.0@, memory.id),
        term.bm25_rank matches Some(r) ==> is_first_place(r, legs.keyword.0@, memory.id),
        term.graph matches Some(g) ==> is_first_place(g.rank, legs.graph.0@, memory.id),
        term.graph_weight == ranker.weight(),
        term.age_seconds == now.age_since(memory.created_at),
        term.half_life_days == ranker.half_life(),
        term.confidence == memory.confidence,
        term.importance == memory.importance,
{
    let detail = choose|detail: MatchDetail|
        is_detail(detail, legs.vector.0@, legs.keyword.0@, legs.graph.0@, memory.id)
            && #[trigger] is_term(term, memory, detail, ranker, now);
    details_are_places(detail, legs.vector.0@, legs.keyword.0@, legs.graph.0@, memory.id);
    graph_terms_follow_the_graph_rank(ranker, detail);
}

/// What is answered are the first of the ranking, as many as were asked for or
/// as there are.
pub proof fn the_best_are_answered(
    ranked: Seq<ScoredMemory>,
    legs: Legs,
    candidates: Seq<MemoryView>,
    scores: Seq<u32>,
    limit: nat,
)
    requires
        is_best(ranked, legs, candidates, scores, limit),
    ensures
        exists|all: Seq<ScoredMemory>|
            #[trigger] is_ranked(
                all,
                legs.vector.0@,
                legs.keyword.0@,
                legs.graph.0@,
                candidates,
                scores,
            ) && ranked.is_prefix_of(all) && ranked.len() <= limit && (ranked.len() == limit
                || ranked.len() == all.len()),
{
    let all = choose|all: Seq<ScoredMemory>|
        #[trigger] is_ranked(
            all,
            legs.vector.0@,
            legs.keyword.0@,
            legs.graph.0@,
            candidates,
            scores,
        ) && ranked == (if all.len() <= limit {
            all
        } else {
            all.take(limit as int)
        });
    assert(ranked =~= all.subrange(0, ranked.len() as int));
}

/// Whose reading is recorded are the memories that were answered, all of them.
pub proof fn all_results_are_touched(ranked: Seq<ScoredMemory>, i: int)
    requires
        0 <= i < ranked.len(),
    ensures
        result_ids(ranked).len() == ranked.len(),
        result_ids(ranked)[i] == ranked[i].memory@.id,
{
}

/// Once the legs have answered, what any of them has is fetched, in full; where
/// none has anything, nothing is found.
pub proof fn what_the_legs_have_is_fetched(step: RecallStep, legs: Legs, id: MemoryId)
    requires
        gathered(step, legs),
        legs.vector.0@.contains(id) || legs.keyword.0@.contains(id) || legs.graph.0@.contains(id),
    ensures
        step matches RecallStep::Fetch { ids, legs: l } && ids@.contains(id) && l == legs,
{
    candidates_come_from_the_legs(legs, id);
}

} // verus!
