//! Fuses the legs of recall into one ranking.
//!
//! Each leg is a list of memories in rank order. A memory's score is made of
//! the reciprocals of its ranks, times a factor for its age and one for its
//! quality; the score is a single-precision number and comes from outside,
//! computed from the terms that this module lays down. What is decided here
//! is which rank a memory has in which leg, which terms count, what is kept,
//! and in which order it comes out.
use super::memory::{Memory, MemoryView};
use crate::order::{is_stable_order, sorted_places, stable_order, SortKey};
use crate::shared::ids::MemoryId;
use crate::shared::time::{is_instant, Timestamp};
use vstd::prelude::*;

verus! {

/// The bit pattern of the graph leg's default weight, one.
pub const DEFAULT_GRAPH_RANK_WEIGHT: u32 = 0x3f80_0000;

/// By default a memory that only the graph found is not held back.
pub const DEFAULT_GRAPH_UNANCHORED_FLOOR: usize = 0;

/// One leg's opinion: memories in rank order, best first.
#[derive(Debug, Clone)]
pub struct RankedIds(pub Vec<MemoryId>);

impl Default for RankedIds {
    fn default() -> (ids: RankedIds)
        ensures
            ids.0@.len() == 0,
    {
        RankedIds(Vec::new())
    }
}

/// How a memory was found: its rank, from one, in each leg that has it.
#[derive(Debug, Clone, Copy, PartialEq, Eq, Structural)]
pub struct MatchDetail {
    pub vector_rank: Option<usize>,
    pub bm25_rank: Option<usize>,
    pub graph_rank: Option<usize>,
}

impl MatchDetail {
    /// Whether any leg has the memory.
    pub open spec fn is_found(self) -> bool {
        self.vector_rank is Some || self.bm25_rank is Some || self.graph_rank is Some
    }

    pub fn found(&self) -> (found: bool)
        ensures
            found == self.is_found(),
    {
        self.vector_rank.is_some() || self.bm25_rank.is_some() || self.graph_rank.is_some()
    }
}

/// The rank of an identifier in a list, from one: the place where it first
/// occurs.
pub open spec fn rank_in(list: Seq<MemoryId>, id: MemoryId) -> Option<nat>
    decreases list.len(),
{
    if list.len() == 0 {
        None
    } else {
        match rank_in(list.drop_last(), id) {
            Some(rank) => Some(rank),
            None => if list.last() == id {
                Some(list.len())
            } else {
                None
            },
        }
    }
}

/// `rank` is the rank of `id` in `list`.
pub open spec fn ranked_at(rank: Option<usize>, list: Seq<MemoryId>, id: MemoryId) -> bool {
    match rank {
        Some(r) => rank_in(list, id) == Some(r as nat),
        None => rank_in(list, id) is None,
    }
}

pub fn rank_of(list: &RankedIds, id: MemoryId) -> (rank: Option<usize>)
    ensures
        ranked_at(rank, list.0@, id),
        rank is Some <==> list.0@.contains(id),
        rank matches Some(r) ==> 1 <= r <= list.0@.len() && list.0@[r - 1] == id && forall|j: int|
            0 <= j < r - 1 ==> list.0@[j] != id,
{
    let ids = &list.0;
    let mut i: usize = 0;
    assert(ids@.take(0) =~= Seq::empty());
    while i < ids.len()
        invariant
            0 <= i <= ids@.len(),
            *ids == list.0,
            rank_in(ids@.take(i as int), id) is None,
            forall|j: int| 0 <= j < i ==> ids@[j] != id,
        decreases ids@.len() - i,
    {
        assert(ids@.take(i + 1).drop_last() =~= ids@.take(i as int));
        if ids[i] == id {
            proof {
                assert(rank_in(ids@.take(i + 1), id) == Some((i + 1) as nat));
                lemma_rank_in_prefix(ids@, id, (i + 1) as nat);
                assert(ids@[i as int] == id);
            }
            return Some(i + 1);
        }
        i += 1;
    }
    assert(ids@.take(ids@.len() as int) =~= ids@);
    None
}

proof fn lemma_rank_in_prefix(list: Seq<MemoryId>, id: MemoryId, n: nat)
    requires
        n <= list.len(),
        rank_in(list.take(n as int), id) is Some,
    ensures
        rank_in(list, id) == rank_in(list.take(n as int), id),
    decreases list.len(),
{
    if n == list.len() {
        assert(list.take(n as int) =~= list);
    } else {
        assert(list.drop_last().take(n as int) =~= list.take(n as int));
        lemma_rank_in_prefix(list.drop_last(), id, n);
    }
}

/// `detail` is how `id` was found in the three legs.
pub open spec fn is_detail(
    detail: MatchDetail,
    vector: Seq<MemoryId>,
    keyword: Seq<MemoryId>,
    graph: Seq<MemoryId>,
    id: MemoryId,
) -> bool {
    &&& ranked_at(detail.vector_rank, vector, id)
    &&& ranked_at(detail.bm25_rank, keyword, id)
    &&& ranked_at(detail.graph_rank, graph, id)
}

/// Whether any of the legs has the memory.
pub open spec fn in_some_leg(
    vector: Seq<MemoryId>,
    keyword: Seq<MemoryId>,
    graph: Seq<MemoryId>,
    id: MemoryId,
) -> bool {
    rank_in(vector, id) is Some || rank_in(keyword, id) is Some || rank_in(graph, id) is Some
}

/// How a memory was found in the three legs.
pub fn match_detail(
    vector: &RankedIds,
    keyword: &RankedIds,
    graph: &RankedIds,
    id: MemoryId,
) -> (detail: MatchDetail)
    ensures
        is_detail(detail, vector.0@, keyword.0@, graph.0@, id),
        detail.is_found() == in_some_leg(vector.0@, keyword.0@, graph.0@, id),
{
    MatchDetail {
        vector_rank: rank_of(vector, id),
        bm25_rank: rank_of(keyword, id),
        graph_rank: rank_of(graph, id),
    }
}

/// The graph leg's part in a score: the rank whose reciprocal is weighed, and
/// the rank whose reciprocal it may not exceed, if there is one.
#[derive(Debug, Clone, Copy, PartialEq, Eq, Structural)]
pub struct GraphTerm {
    pub rank: usize,
    pub cap: Option<usize>,
}

/// Everything that a score is computed from.
#[derive(Debug, Clone, Copy, PartialEq, Eq, Structural)]
pub struct ScoreTerms {
    pub vector_rank: Option<usize>,
    pub bm25_rank: Option<usize>,
    pub graph: Option<GraphTerm>,
    /// A single-precision number, by its bit pattern.
    pub graph_weight: u32,
    /// Never negative: a memory from the future gets no bonus.
    pub age_seconds: u64,
    /// No half-life, no decay.
    pub half_life_days: Option<u32>,
    /// A single-precision number, by its bit pattern.
    pub confidence: u32,
    /// A single-precision number, by its bit pattern.
    pub importance: u32,
}

/// Where a single-precision number stands among all of them, from its bit
/// pattern: the greater number stands higher, and the two zeroes stand alike.
/// What is not a number stands beyond the infinities.
pub open spec fn height(bits: u32) -> u32 {
    if bits < 0x8000_0000 {
        (0x8000_0000 + bits) as u32
    } else {
        (0x1_0000_0000 - bits) as u32
    }
}

pub fn height_of(bits: u32) -> (above: u32)
    ensures
        above == height(bits),
{
    if bits < 0x8000_0000 {
        0x8000_0000 + bits
    } else {
        (0x1_0000_0000 - bits as u64) as u32
    }
}

/// A memory with its score, a single-precision number, by its bit pattern.
#[derive(Debug)]
pub struct ScoredMemory {
    pub memory: Memory,
    pub score: u32,
    pub match_detail: MatchDetail,
}

/// A candidate that a leg has, by its place among the candidates, under the
/// key that it is ranked by.
pub open spec fn rank_key(memory: MemoryView, score: u32) -> SortKey {
    ((u32::MAX - height(score)) as u128, memory.created_at.newest_key(), memory.id.value)
}

/// The places of the candidates that some leg has, in order.
pub open spec fn found_places(
    vector: Seq<MemoryId>,
    keyword: Seq<MemoryId>,
    graph: Seq<MemoryId>,
    candidates: Seq<MemoryView>,
) -> Seq<int>
    decreases candidates.len(),
{
    if candidates.len() == 0 {
        Seq::empty()
    } else {
        let earlier = found_places(vector, keyword, graph, candidates.drop_last());
        if in_some_leg(vector, keyword, graph, candidates.last().id) {
            earlier.push(candidates.len() - 1)
        } else {
            earlier
        }
    }
}

/// The keys of the candidates that some leg has.
pub open spec fn found_keys(
    places: Seq<int>,
    candidates: Seq<MemoryView>,
    scores: Seq<u32>,
) -> Seq<SortKey> {
    places.map_values(|i: int| rank_key(candidates[i], scores[i]))
}

/// The places of the candidates in the order in which they come out.
pub open spec fn ranking(
    vector: Seq<MemoryId>,
    keyword: Seq<MemoryId>,
    graph: Seq<MemoryId>,
    candidates: Seq<MemoryView>,
    scores: Seq<u32>,
) -> Seq<int> {
    let places = found_places(vector, keyword, graph, candidates);
    sorted_places(found_keys(places, candidates, scores)).map_values(|k: usize| places[k as int])
}

pub open spec fn memory_views(list: Seq<Memory>) -> Seq<MemoryView> {
    list.map_values(|m: Memory| m@)
}

pub struct RecallRanker {
    half_life_days: u32,
    graph_rank_weight: u32,
    graph_unanchored_floor: usize,
}

impl RecallRanker {
    pub closed spec fn half_life(self) -> Option<u32> {
        if self.half_life_days == 0 {
            None
        } else {
            Some(self.half_life_days)
        }
    }

    pub closed spec fn weight(self) -> u32 {
        self.graph_rank_weight
    }

    pub closed spec fn floor(self) -> usize {
        self.graph_unanchored_floor
    }

    /// A half-life of zero means no decay.
    pub fn new(recency_half_life_days: u32) -> (ranker: RecallRanker)
        ensures
            ranker.half_life() == (if recency_half_life_days == 0 {
                None::<u32>
            } else {
                Some(recency_half_life_days)
            }),
            ranker.weight() == DEFAULT_GRAPH_RANK_WEIGHT,
            ranker.floor() == DEFAULT_GRAPH_UNANCHORED_FLOOR,
    {
        RecallRanker {
            half_life_days: recency_half_life_days,
            graph_rank_weight: DEFAULT_GRAPH_RANK_WEIGHT,
            graph_unanchored_floor: DEFAULT_GRAPH_UNANCHORED_FLOOR,
        }
    }

    /// Sets the graph leg's weight, and the rank at which a memory that only
    /// the graph found is held back.
    pub fn with_graph_ranking(self, rank_weight: u32, unanchored_floor: usize) -> (ranker:
        RecallRanker)
        ensures
            ranker.half_life() == self.half_life(),
            ranker.weight() == rank_weight,
            ranker.floor() == unanchored_floor,
    {
        RecallRanker {
            half_life_days: self.half_life_days,
            graph_rank_weight: rank_weight,
            graph_unanchored_floor: unanchored_floor,
        }
    }

    /// The graph leg's part in a score. A memory that only the graph found has
    /// no other rank to stand on, so its term is capped.
    pub open spec fn graph_term(self, detail: MatchDetail) -> Option<GraphTerm> {
        match detail.graph_rank {
            None => None,
            Some(rank) => Some(
                GraphTerm {
                    rank,
                    cap: if detail.vector_rank is None && detail.bm25_rank is None && self.floor()
                        > 0 {
                        Some(self.floor())
                    } else {
                        None
                    },
                },
            ),
        }
    }

    pub fn graph_relevance(&self, detail: MatchDetail) -> (term: Option<GraphTerm>)
        ensures
            term == self.graph_term(detail),
    {
        match detail.graph_rank {
            None => None,
            Some(rank) => {
                let unanchored = detail.vector_rank.is_none() && detail.bm25_rank.is_none();
                Some(
                    GraphTerm {
                        rank,
                        cap: if unanchored && self.graph_unanchored_floor > 0 {
                            Some(self.graph_unanchored_floor)
                        } else {
                            None
                        },
                    },
                )
            },
        }
    }

    /// Everything that a memory's score is computed from.
    pub fn score_terms(&self, memory: &Memory, detail: MatchDetail, now: Timestamp) -> (terms:
        ScoreTerms)
        ensures
            terms.vector_rank == detail.vector_rank,
            terms.bm25_rank == detail.bm25_rank,
            terms.graph == self.graph_term(detail),
            terms.graph_weight == self.weight(),
            terms.age_seconds == now.age_since(memory@.created_at),
            terms.half_life_days == self.half_life(),
            terms.confidence == memory@.confidence,
            terms.importance == memory@.importance,
    {
        ScoreTerms {
            vector_rank: detail.vector_rank,
            bm25_rank: detail.bm25_rank,
            graph: self.graph_relevance(detail),
            graph_weight: self.graph_rank_weight,
            age_seconds: now.seconds_since(&memory.created_at()),
            half_life_days: if self.half_life_days == 0 {
                None
            } else {
                Some(self.half_life_days)
            },
            confidence: memory.confidence(),
            importance: memory.importance(),
        }
    }

    /// Fuses the vector and the keyword leg: the fusion of three legs of which
    /// the graph's is empty.
    pub fn rank(
        &self,
        vector: &RankedIds,
        keyword: &RankedIds,
        candidates: &Vec<Memory>,
        scores: &Vec<u32>,
    ) -> (scored: Vec<ScoredMemory>)
        requires
            scores@.len() == candidates@.len(),
        ensures
            is_ranked(
                scored@,
                vector.0@,
                keyword.0@,
                Seq::empty(),
                memory_views(candidates@),
                scores@,
            ),
    {
        let none = RankedIds::default();
        let scored = self.rank_with_graph(vector, keyword, &none, candidates, scores);
        assert(none.0@ =~= Seq::empty());
        scored
    }

    /// Fuses all three legs, best first. A candidate that no leg has is
    /// dropped. Equal scores are told apart by age, newest first, then by
    /// identifier, so the order in which rows came back never shows.
    pub fn rank_with_graph(
        &self,
        vector: &RankedIds,
        keyword: &RankedIds,
        graph: &RankedIds,
        candidates: &Vec<Memory>,
        scores: &Vec<u32>,
    ) -> (scored: Vec<ScoredMemory>)
        requires
            scores@.len() == candidates@.len(),
        ensures
            is_ranked(
                scored@,
                vector.0@,
                keyword.0@,
                graph.0@,
                memory_views(candidates@),
                scores@,
            ),
    {
        let ghost views = memory_views(candidates@);
        let mut places: Vec<usize> = Vec::new();
        let mut keys: Vec<SortKey> = Vec::new();
        let ghost mut found: Seq<int> = Seq::empty();
        let mut i: usize = 0;
        assert(views.take(0) =~= Seq::empty());
        while i < candidates.len()
            invariant
                0 <= i <= candidates@.len(),
                scores@.len() == candidates@.len(),
                views == memory_views(candidates@),
                found == found_places(vector.0@, keyword.0@, graph.0@, views.take(i as int)),
                places@.len() == found.len(),
                keys@.len() == found.len(),
                forall|k: int|
                    0 <= k < found.len() ==> 0 <= #[trigger] found[k] < i && places@[k]
                        == found[k] && keys@[k] == rank_key(views[found[k]], scores@[found[k]]),
            decreases candidates@.len() - i,
        {
            proof {
                assert(views.take(i + 1).drop_last() =~= views.take(i as int));
                assert(views.take(i + 1).last() == candidates@[i as int]@);
            }
            let id = candidates[i].id();
            if match_detail(vector, keyword, graph, id).found() {
                let created = candidates[i].created_at();
                places.push(i);
                keys.push(
                    ((u32::MAX - height_of(scores[i])) as u128, created.newest_first(), id.value),
                );
                proof {
                    found = found.push(i as int);
                }
            }
            i += 1;
        }
        proof {
            assert(views.take(views.len() as int) =~= views);
            assert(keys@ =~= found_keys(found, views, scores@));
        }
        let order = stable_order(&keys);
        let ghost out = ranking(vector.0@, keyword.0@, graph.0@, views, scores@);
        let mut scored: Vec<ScoredMemory> = Vec::new();
        let mut k: usize = 0;
        while k < order.len()
            invariant
                0 <= k <= order@.len(),
                scores@.len() == candidates@.len(),
                views == memory_views(candidates@),
                places@.len() == keys@.len(),
                found.len() == keys@.len(),
                is_stable_order(order@, keys@),
                out.len() == order@.len(),
                forall|j: int|
                    0 <= j < order@.len() ==> #[trigger] out[j] == found[order@[j] as int],
                forall|j: int|
                    0 <= j < found.len() ==> 0 <= #[trigger] found[j] < candidates@.len()
                        && places@[j] == found[j],
                scored@.len() == k,
                forall|j: int|
                    0 <= j < k ==> scored_is(
                        #[trigger] scored@[j],
                        vector.0@,
                        keyword.0@,
                        graph.0@,
                        views,
                        scores@,
                        out[j],
                    ),
            decreases order@.len() - k,
        {
            assert(order@[k as int] < keys@.len());
            let place: usize = places[order[k]];
            assert(out[k as int] == place);
            let memory = candidates[place].copy();
            let detail = match_detail(vector, keyword, graph, memory.id());
            assert(views[place as int] == candidates@[place as int]@);
            scored.push(ScoredMemory { memory, score: scores[place], match_detail: detail });
            k += 1;
        }
        scored
    }
}

/// `item` is the candidate at `place`, with its score and how it was found.
pub open spec fn scored_is(
    item: ScoredMemory,
    vector: Seq<MemoryId>,
    keyword: Seq<MemoryId>,
    graph: Seq<MemoryId>,
    candidates: Seq<MemoryView>,
    scores: Seq<u32>,
    place: int,
) -> bool {
    &&& item.memory@ == candidates[place]
    &&& item.score == scores[place]
    &&& is_detail(item.match_detail, vector, keyword, graph, candidates[place].id)
}

/// `scored` is the ranking of the candidates.
pub open spec fn is_ranked(
    scored: Seq<ScoredMemory>,
    vector: Seq<MemoryId>,
    keyword: Seq<MemoryId>,
    graph: Seq<MemoryId>,
    candidates: Seq<MemoryView>,
    scores: Seq<u32>,
) -> bool {
    let out = ranking(vector, keyword, graph, candidates, scores);
    &&& scored.len() == out.len()
    &&& forall|j: int|
        0 <= j < scored.len() ==> scored_is(
            #[trigger] scored[j],
            vector,
            keyword,
            graph,
            candidates,
            scores,
            out[j],
        )
}

proof fn lemma_found_places(
    vector: Seq<MemoryId>,
    keyword: Seq<MemoryId>,
    graph: Seq<MemoryId>,
    candidates: Seq<MemoryView>,
)
    ensures
        ({
            let places = found_places(vector, keyword, graph, candidates);
            &&& places.len() <= candidates.len()
            &&& forall|k: int|
                0 <= k < places.len() ==> 0 <= #[trigger] places[k] < candidates.len()
                    && in_some_leg(vector, keyword, graph, candidates[places[k]].id)
            &&& forall|a: int, b: int|
                0 <= a < b < places.len() ==> #[trigger] places[a] < #[trigger] places[b]
            &&& forall|i: int|
                0 <= i < candidates.len() && in_some_leg(
                    vector,
                    keyword,
                    graph,
                    #[trigger] candidates[i].id,
                ) ==> places.contains(i)
        }),
    decreases candidates.len(),
{
    if candidates.len() > 0 {
        let shorter = candidates.drop_last();
        let earlier = found_places(vector, keyword, graph, shorter);
        let places = found_places(vector, keyword, graph, candidates);
        lemma_found_places(vector, keyword, graph, shorter);
        assert forall|k: int| 0 <= k < places.len() implies 0 <= #[trigger] places[k]
            < candidates.len() && in_some_leg(vector, keyword, graph, candidates[places[k]].id) by {
            if k < earlier.len() {
                assert(places[k] == earlier[k]);
                assert(shorter[earlier[k]] == candidates[earlier[k]]);
            }
        }
        assert forall|i: int|
            0 <= i < candidates.len() && in_some_leg(
                vector,
                keyword,
                graph,
                #[trigger] candidates[i].id,
            ) implies places.contains(i) by {
            if i < shorter.len() {
                assert(shorter[i].id == candidates[i].id);
                let k = choose|k: int| 0 <= k < earlier.len() && earlier[k] == i;
                assert(places[k] == i);
            } else {
                assert(places[earlier.len() as int] == i);
            }
        }
    }
}

/// What comes out: every candidate that a leg has, each once, and nothing
/// else.
pub proof fn ranking_keeps_what_was_found(
    vector: Seq<MemoryId>,
    keyword: Seq<MemoryId>,
    graph: Seq<MemoryId>,
    candidates: Seq<MemoryView>,
    scores: Seq<u32>,
)
    requires
        candidates.len() <= usize::MAX,
    ensures
        ({
            let order = ranking(vector, keyword, graph, candidates, scores);
            &&& order.no_duplicates()
            &&& forall|i: int|
                order.contains(i) <==> 0 <= i < candidates.len() && in_some_leg(
                    vector,
                    keyword,
                    graph,
                    candidates[i].id,
                )
        }),
{
    let places = found_places(vector, keyword, graph, candidates);
    let keys = found_keys(places, candidates, scores);
    let sorted = sorted_places(keys);
    let order = ranking(vector, keyword, graph, candidates, scores);
    lemma_found_places(vector, keyword, graph, candidates);
    crate::order::sorting_is_possible(keys);
    assert forall|a: int, b: int| 0 <= a < b < order.len() implies order[a] != order[b] by {
        assert(sorted[a] != sorted[b]);
        assert(sorted[a] < keys.len() && sorted[b] < keys.len());
        let (x, y) = (sorted[a] as int, sorted[b] as int);
        if x < y {
            assert(places[x] < places[y]);
        } else {
            assert(places[y] < places[x]);
        }
    }
    assert forall|i: int|
        order.contains(i) <==> 0 <= i < candidates.len() && in_some_leg(
            vector,
            keyword,
            graph,
            candidates[i].id,
        ) by {
        if order.contains(i) {
            let k = choose|k: int| 0 <= k < order.len() && order[k] == i;
            assert(sorted[k] < keys.len());
            assert(places[sorted[k] as int] == i);
        }
        if 0 <= i < candidates.len() && in_some_leg(vector, keyword, graph, candidates[i].id) {
            assert(places.contains(i));
            let p = choose|p: int| 0 <= p < places.len() && places[p] == i;
            crate::order::lemma_arrangement_covers(sorted, keys.len(), p as usize);
            let k = choose|k: int| 0 <= k < sorted.len() && sorted[k] == p as usize;
            assert(order[k] == i);
        }
    }
}

/// Best first: by score, then newest, then by identifier.
pub open spec fn ranks_above(a: MemoryView, x: u32, b: MemoryView, y: u32) -> bool {
    ||| height(x) > height(y)
    ||| height(x) == height(y) && b.created_at.before(a.created_at)
    ||| height(x) == height(y) && a.created_at == b.created_at && a.id.value < b.id.value
}

/// Two candidates with different identifiers come out in the order of their
/// scores, then of their age, then of their identifiers, wherever they stood
/// among the candidates.
pub proof fn ranking_ignores_input_order(
    vector: Seq<MemoryId>,
    keyword: Seq<MemoryId>,
    graph: Seq<MemoryId>,
    candidates: Seq<MemoryView>,
    scores: Seq<u32>,
    i: int,
    j: int,
)
    requires
        scores.len() == candidates.len() <= usize::MAX,
        forall|k: int|
            0 <= k < candidates.len() ==> is_instant(
                (#[trigger] candidates[k]).created_at.spec_seconds(),
                candidates[k].created_at.spec_nanos(),
            ),
        0 <= i < ranking(vector, keyword, graph, candidates, scores).len(),
        0 <= j < ranking(vector, keyword, graph, candidates, scores).len(),
        ({
            let order = ranking(vector, keyword, graph, candidates, scores);
            candidates[order[i]].id != candidates[order[j]].id
        }),
    ensures
        ({
            let order = ranking(vector, keyword, graph, candidates, scores);
            i < j <==> ranks_above(
                candidates[order[i]],
                scores[order[i]],
                candidates[order[j]],
                scores[order[j]],
            )
        }),
{
    let places = found_places(vector, keyword, graph, candidates);
    let keys = found_keys(places, candidates, scores);
    let sorted = sorted_places(keys);
    let order = ranking(vector, keyword, graph, candidates, scores);
    lemma_found_places(vector, keyword, graph, candidates);
    crate::order::sorting_is_possible(keys);
    assert(sorted[i] < keys.len() && sorted[j] < keys.len());
    let (a, b) = (candidates[order[i]], candidates[order[j]]);
    assert(keys[sorted[i] as int] == rank_key(a, scores[order[i]]));
    assert(keys[sorted[j] as int] == rank_key(b, scores[order[j]]));
    assert(0 <= order[i] < candidates.len() && 0 <= order[j] < candidates.len());
    crate::shared::time::newest_keys_order(a.created_at, b.created_at);
    assert(a.id.value != b.id.value);
    if i < j {
        assert(crate::order::comes_first(keys, sorted[i] as int, sorted[j] as int));
    } else {
        assert(i != j);
        assert(crate::order::comes_first(keys, sorted[j] as int, sorted[i] as int));
    }
}

/// An empty graph leg plays no part: no memory has a rank in it, and the terms
/// of a score are the same whatever the graph's knobs.
pub proof fn an_empty_graph_leg_is_silent(
    detail: MatchDetail,
    vector: Seq<MemoryId>,
    keyword: Seq<MemoryId>,
    id: MemoryId,
    a: RecallRanker,
    b: RecallRanker,
)
    requires
        is_detail(detail, vector, keyword, Seq::empty(), id),
    ensures
        detail.graph_rank is None,
        a.graph_term(detail) is None,
        a.graph_term(detail) == b.graph_term(detail),
{
}

/// The floor holds back only what the graph alone found.
pub proof fn the_floor_spares_anchored_memories(
    detail: MatchDetail,
    a: RecallRanker,
    b: RecallRanker,
)
    requires
        detail.vector_rank is Some || detail.bm25_rank is Some,
    ensures
        a.graph_term(detail) == b.graph_term(detail),
{
}

/// A rank is the place, from one, at which a list first has the memory.
pub open spec fn is_first_place(rank: usize, list: Seq<MemoryId>, id: MemoryId) -> bool {
    1 <= rank <= list.len() && list[rank - 1] == id && forall|j: int|
        0 <= j < rank - 1 ==> #[trigger] list[j] != id
}

proof fn lemma_rank_in(list: Seq<MemoryId>, id: MemoryId)
    ensures
        match rank_in(list, id) {
            Some(r) => 1 <= r <= list.len() && list[r - 1] == id && forall|j: int|
                0 <= j < r - 1 ==> #[trigger] list[j] != id,
            None => !list.contains(id),
        },
    decreases list.len(),
{
    if list.len() > 0 {
        let shorter = list.drop_last();
        lemma_rank_in(shorter, id);
        match rank_in(shorter, id) {
            Some(r) => {
                assert forall|j: int| 0 <= j < r - 1 implies #[trigger] list[j] != id by {
                    assert(shorter[j] == list[j]);
                }
            },
            None => {
                assert forall|j: int| 0 <= j < list.len() - 1 implies #[trigger] list[j] != id by {
                    assert(shorter[j] == list[j]);
                    assert(shorter.contains(shorter[j]));
                }
            },
        }
    }
}

/// How a memory was found says of each leg, by itself, where that leg has the
/// memory, and nothing of a leg that does not.
pub proof fn details_are_places(
    detail: MatchDetail,
    vector: Seq<MemoryId>,
    keyword: Seq<MemoryId>,
    graph: Seq<MemoryId>,
    id: MemoryId,
)
    requires
        is_detail(detail, vector, keyword, graph, id),
    ensures
        detail.vector_rank is None <==> !vector.contains(id),
        detail.bm25_rank is None <==> !keyword.contains(id),
        detail.graph_rank is None <==> !graph.contains(id),
        detail.vector_rank matches Some(r) ==> is_first_place(r, vector, id),
        detail.bm25_rank matches Some(r) ==> is_first_place(r, keyword, id),
        detail.graph_rank matches Some(r) ==> is_first_place(r, graph, id),
        detail.is_found() <==> vector.contains(id) || keyword.contains(id) || graph.contains(id),
{
    lemma_rank_in(vector, id);
    lemma_rank_in(keyword, id);
    lemma_rank_in(graph, id);
}

/// A leg has a memory if its list does.
pub proof fn legs_have_what_they_list(
    vector: Seq<MemoryId>,
    keyword: Seq<MemoryId>,
    graph: Seq<MemoryId>,
    id: MemoryId,
)
    ensures
        in_some_leg(vector, keyword, graph, id) <==> vector.contains(id) || keyword.contains(id)
            || graph.contains(id),
{
    lemma_rank_in(vector, id);
    lemma_rank_in(keyword, id);
    lemma_rank_in(graph, id);
    if let Some(r) = rank_in(vector, id) {
        assert(vector[r - 1] == id);
    }
    if let Some(r) = rank_in(keyword, id) {
        assert(keyword[r - 1] == id);
    }
    if let Some(r) = rank_in(graph, id) {
        assert(graph[r - 1] == id);
    }
}

/// Heights order numbers as numbers are ordered: among those from zero on the
/// greater bit pattern is the greater number, among those below zero it is the
/// less, and these stand below those. The two zeroes are one.
pub proof fn heights_order_as_numbers(x: u32, y: u32)
    ensures
        x < y < 0x8000_0000 ==> height(x) < height(y),
        0x8000_0000 <= x < y ==> height(x) > height(y),
        x > 0x8000_0000 && y < 0x8000_0000 ==> height(x) < height(y),
        height(0) == height(0x8000_0000),
{
}

/// The graph's part in a score is the graph's rank. It is held back, at the
/// floor, where there is one and no other leg has the memory, and only there.
pub proof fn graph_terms_follow_the_graph_rank(ranker: RecallRanker, detail: MatchDetail)
    ensures
        detail.graph_rank is None <==> ranker.graph_term(detail) is None,
        ranker.graph_term(detail) matches Some(term) ==> detail.graph_rank == Some(term.rank) && (
        term.cap is Some <==> ranker.floor() > 0 && detail.vector_rank is None && detail.bm25_rank
            is None) && (term.cap matches Some(cap) ==> cap == ranker.floor()),
{
}

/// A ranking is made of the candidates that some leg has, each with the score
/// that was computed for it and with how it was found.
pub proof fn results_are_candidates_with_their_own_scores(
    scored: Seq<ScoredMemory>,
    vector: Seq<MemoryId>,
    keyword: Seq<MemoryId>,
    graph: Seq<MemoryId>,
    candidates: Seq<MemoryView>,
    scores: Seq<u32>,
    j: int,
)
    requires
        candidates.len() <= usize::MAX,
        is_ranked(scored, vector, keyword, graph, candidates, scores),
        0 <= j < scored.len(),
    ensures
        exists|i: int|
            0 <= i < candidates.len() && #[trigger] candidates[i] == scored[j].memory@ && scores[i]
                == scored[j].score,
        is_detail(scored[j].match_detail, vector, keyword, graph, scored[j].memory@.id),
        vector.contains(scored[j].memory@.id) || keyword.contains(scored[j].memory@.id)
            || graph.contains(scored[j].memory@.id),
{
    ranking_keeps_what_was_found(vector, keyword, graph, candidates, scores);
    let order = ranking(vector, keyword, graph, candidates, scores);
    assert(scored_is(scored[j], vector, keyword, graph, candidates, scores, order[j]));
    assert(order.contains(order[j]));
    assert(candidates[order[j]] == scored[j].memory@);
    legs_have_what_they_list(vector, keyword, graph, scored[j].memory@.id);
}

/// Every candidate that some leg has comes out.
pub proof fn no_found_candidate_is_lost(
    scored: Seq<ScoredMemory>,
    vector: Seq<MemoryId>,
    keyword: Seq<MemoryId>,
    graph: Seq<MemoryId>,
    candidates: Seq<MemoryView>,
    scores: Seq<u32>,
    i: int,
)
    requires
        candidates.len() <= usize::MAX,
        is_ranked(scored, vector, keyword, graph, candidates, scores),
        0 <= i < candidates.len(),
        vector.contains(candidates[i].id) || keyword.contains(candidates[i].id) || graph.contains(
            candidates[i].id,
        ),
    ensures
        exists|j: int| 0 <= j < scored.len() && (#[trigger] scored[j]).memory@ == candidates[i],
{
    ranking_keeps_what_was_found(vector, keyword, graph, candidates, scores);
    legs_have_what_they_list(vector, keyword, graph, candidates[i].id);
    let order = ranking(vector, keyword, graph, candidates, scores);
    assert(order.contains(i));
    let j = choose|j: int| 0 <= j < order.len() && order[j] == i;
    assert(scored_is(scored[j], vector, keyword, graph, candidates, scores, order[j]));
}

} // verus!
