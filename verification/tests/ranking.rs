//! Fusing the legs of a recall.
use recuerdos_ai::memories::domain::category::Category;
use recuerdos_ai::memories::domain::memory::{Memory, MemorySource, NewMemory};
use recuerdos_ai::memories::domain::recall_ranker::{
    height_of, match_detail, RankedIds, RecallRanker, ScoreTerms, ScoredMemory,
};
use recuerdos_ai::shared::ids::{MemoryId, UserId};
use recuerdos_ai::shared::time::Timestamp;

const NOW: i64 = 1_700_000_000;

fn now() -> Timestamp {
    Timestamp::new(NOW, 0).unwrap()
}

fn memory_aged(days: i64, confidence: f32) -> Memory {
    Memory::create(
        UserId::new(),
        NewMemory {
            content: "x".to_string(),
            category: Category::PreferenceCoding,
            subcategory: None,
            tags: vec![],
            entities: vec![],
            confidence: confidence.to_bits(),
            source: MemorySource::default(),
            expires_at: None,
        },
        Timestamp::new(NOW - days * 86_400, 0).unwrap(),
    )
    .unwrap()
}

fn memory() -> Memory {
    memory_aged(0, 1.0)
}

fn ranker() -> RecallRanker {
    RecallRanker::new(90)
}

fn ids(memories: &[&Memory]) -> RankedIds {
    RankedIds(memories.iter().map(|m| m.id()).collect())
}

fn ordered(scored: &[ScoredMemory]) -> Vec<MemoryId> {
    scored.iter().map(|s| s.memory.id()).collect()
}

fn reciprocal_rank(rank: Option<usize>) -> f32 {
    match rank {
        Some(rank) => 1.0 / (60.0 + rank as f32),
        None => 0.0,
    }
}

fn floored(value: f32) -> f32 {
    0.8 + (1.0 - 0.8) * value.clamp(0.0, 1.0)
}

fn score(terms: ScoreTerms) -> f32 {
    let graph = match terms.graph {
        None => 0.0,
        Some(term) => {
            let weighed = f32::from_bits(terms.graph_weight) * reciprocal_rank(Some(term.rank));
            match term.cap {
                Some(cap) => weighed.min(reciprocal_rank(Some(cap))),
                None => weighed,
            }
        }
    };
    let half_life = match terms.half_life_days {
        Some(days) => days as f32,
        None => f32::INFINITY,
    };
    let age_days = terms.age_seconds as f32 / 86_400.0;
    let quality = f32::from_bits(terms.confidence) * f32::from_bits(terms.importance);
    (reciprocal_rank(terms.vector_rank) + reciprocal_rank(terms.bm25_rank) + graph)
        * floored(0.5f32.powf(age_days / half_life))
        * floored(quality)
}

fn rank_with_graph(
    ranker: &RecallRanker,
    vector: &RankedIds,
    keyword: &RankedIds,
    graph: &RankedIds,
    candidates: &Vec<Memory>,
) -> Vec<ScoredMemory> {
    let scores: Vec<u32> = candidates
        .iter()
        .map(|m| {
            let detail = match_detail(vector, keyword, graph, m.id());
            score(ranker.score_terms(m, detail, now())).to_bits()
        })
        .collect();
    ranker.rank_with_graph(vector, keyword, graph, candidates, &scores)
}

fn rank(
    ranker: &RecallRanker,
    vector: &RankedIds,
    keyword: &RankedIds,
    candidates: &Vec<Memory>,
) -> Vec<ScoredMemory> {
    let none = RankedIds::default();
    let scores: Vec<u32> = candidates
        .iter()
        .map(|m| {
            let detail = match_detail(vector, keyword, &none, m.id());
            score(ranker.score_terms(m, detail, now())).to_bits()
        })
        .collect();
    ranker.rank(vector, keyword, candidates, &scores)
}

fn score_of(result: &[ScoredMemory], id: MemoryId) -> f32 {
    f32::from_bits(result.iter().find(|s| s.memory.id() == id).unwrap().score)
}

#[test]
fn a_decayed_memory_loses_a_tie_to_one_in_active_use() {
    let used = memory().with_importance(1.0f32.to_bits());
    let ignored = memory().with_importance(0.1f32.to_bits());

    let result = rank(
        &ranker(),
        &ids(&[&ignored, &used]),
        &ids(&[&ignored, &used]),
        &vec![used.clone(), ignored.clone()],
    );

    assert_eq!(
        ordered(&result),
        [used.id(), ignored.id()],
        "the decayed memory outranked the one in active use"
    );
}

#[test]
fn decay_reorders_neighbours_without_leapfrogging_many_ranks() {
    let decayed = memory().with_importance(0.0f32.to_bits());
    let used = memory().with_importance(1.0f32.to_bits());

    let adjacent = rank(
        &ranker(),
        &ids(&[&decayed, &used]),
        &ids(&[&decayed, &used]),
        &vec![decayed.clone(), used.clone()],
    );
    assert_eq!(
        ordered(&adjacent)[0],
        used.id(),
        "decay should break a near-tie"
    );

    let filler: Vec<Memory> = (0..19).map(|_| memory()).collect();
    let mut ranking = vec![&decayed];
    ranking.extend(filler.iter());
    ranking.push(&used);
    let mut candidates = vec![decayed.clone(), used.clone()];
    candidates.extend(filler.iter().cloned());

    let distant = ordered(&rank(&ranker(), &ids(&ranking), &ids(&ranking), &candidates));
    let place = |id| distant.iter().position(|found| *found == id).unwrap();

    assert!(
        place(decayed.id()) < place(used.id()),
        "decay leapfrogged twenty ranks and buried the better match"
    );
}

#[test]
fn a_memory_nothing_has_measured_yet_ranks_as_it_always_did() {
    assert_eq!(f32::from_bits(memory().importance()), 1.0);
}

#[test]
fn a_memory_both_legs_rank_beats_one_only_either_leg_ranks() {
    let both = memory();
    let vector_only = memory();
    let keyword_only = memory();

    let result = rank(
        &ranker(),
        &ids(&[&vector_only, &both]),
        &ids(&[&keyword_only, &both]),
        &vec![both.clone(), vector_only.clone(), keyword_only.clone()],
    );

    assert_eq!(
        ordered(&result)[0],
        both.id(),
        "agreement between the legs should win"
    );
}

#[test]
fn a_better_rank_in_one_leg_wins_when_the_other_leg_is_silent() {
    let first = memory();
    let second = memory();

    let result = rank(
        &ranker(),
        &ids(&[&first, &second]),
        &RankedIds::default(),
        &vec![second.clone(), first.clone()],
    );

    assert_eq!(ordered(&result), vec![first.id(), second.id()]);
}

#[test]
fn memories_in_neither_leg_are_dropped() {
    let found = memory();
    let unrelated = memory();

    let result = rank(
        &ranker(),
        &ids(&[&found]),
        &RankedIds::default(),
        &vec![found.clone(), unrelated.clone()],
    );

    assert_eq!(ordered(&result), vec![found.id()]);
}

#[test]
fn match_detail_reports_both_ranks() {
    let a = memory();
    let b = memory();

    let result = rank(
        &ranker(),
        &ids(&[&a, &b]),
        &ids(&[&b, &a]),
        &vec![a.clone(), b.clone()],
    );

    let for_a = result.iter().find(|s| s.memory.id() == a.id()).unwrap();
    assert_eq!(for_a.match_detail.vector_rank, Some(1));
    assert_eq!(for_a.match_detail.bm25_rank, Some(2));
}

#[test]
fn match_detail_reports_a_missing_leg_as_none() {
    let only_vector = memory();

    let result = rank(
        &ranker(),
        &ids(&[&only_vector]),
        &RankedIds::default(),
        &vec![only_vector.clone()],
    );

    assert_eq!(result[0].match_detail.vector_rank, Some(1));
    assert_eq!(result[0].match_detail.bm25_rank, None);
}

#[test]
fn an_empty_graph_leg_leaves_the_two_leg_ranking_identical() {
    let a = memory_aged(0, 1.0);
    let b = memory_aged(30, 0.5);
    let c = memory_aged(365, 0.9);
    let vector = ids(&[&a, &b, &c]);
    let keyword = ids(&[&c, &a]);
    let candidates = vec![a.clone(), b.clone(), c.clone()];

    let two_leg = rank(&ranker(), &vector, &keyword, &candidates);
    let three_leg = rank_with_graph(
        &ranker(),
        &vector,
        &keyword,
        &RankedIds::default(),
        &candidates,
    );

    assert_eq!(
        ordered(&two_leg),
        ordered(&three_leg),
        "an empty graph leg reordered the results"
    );
    for (two, three) in two_leg.iter().zip(three_leg.iter()) {
        assert_eq!(two.score, three.score, "an empty graph leg changed a score");
        assert_eq!(three.match_detail.graph_rank, None);
    }
}

#[test]
fn a_memory_only_the_graph_leg_found_is_kept_and_scored() {
    let hopped = memory();

    let result = rank_with_graph(
        &ranker(),
        &RankedIds::default(),
        &RankedIds::default(),
        &ids(&[&hopped]),
        &vec![hopped.clone()],
    );

    assert_eq!(result.len(), 1);
    assert_eq!(result[0].match_detail.graph_rank, Some(1));
    assert!(f32::from_bits(result[0].score) > 0.0);
}

#[test]
fn the_graph_weight_scales_the_leg_but_never_the_others() {
    let hopped = memory();
    let graph = ids(&[&hopped]);
    let candidates = vec![hopped.clone()];

    let full = rank_with_graph(
        &RecallRanker::new(90),
        &RankedIds::default(),
        &RankedIds::default(),
        &graph,
        &candidates,
    );
    let half = rank_with_graph(
        &RecallRanker::new(90).with_graph_ranking(0.5f32.to_bits(), 0),
        &RankedIds::default(),
        &RankedIds::default(),
        &graph,
        &candidates,
    );

    assert!(
        (score_of(&half, hopped.id()) - 0.5 * score_of(&full, hopped.id())).abs() < 1e-6,
        "halving the graph weight did not halve a graph-only memory's score"
    );
}

#[test]
fn down_weighting_the_graph_leg_returns_a_direct_match_to_the_top() {
    let answer = memory();
    let bridge = memory();

    let mut keyword = vec![answer.id()];
    keyword.extend(std::iter::repeat_with(MemoryId::new).take(8));
    keyword.push(bridge.id());
    let keyword = RankedIds(keyword);
    let graph = ids(&[&bridge]);
    let candidates = vec![answer.clone(), bridge.clone()];

    let full = rank_with_graph(
        &RecallRanker::new(90),
        &RankedIds::default(),
        &keyword,
        &graph,
        &candidates,
    );
    assert_eq!(
        ordered(&full)[0],
        bridge.id(),
        "at full weight the bridge should lead"
    );

    let damped = rank_with_graph(
        &RecallRanker::new(90).with_graph_ranking(0.1f32.to_bits(), 0),
        &RankedIds::default(),
        &keyword,
        &graph,
        &candidates,
    );
    assert_eq!(
        ordered(&damped)[0],
        answer.id(),
        "down-weighting the graph leg should return the direct answer to the top"
    );
    assert!(
        damped.iter().any(|s| s.memory.id() == bridge.id()),
        "the bridge must still be returned — precision, not recall, is the lever"
    );
}

#[test]
fn the_unanchored_floor_caps_a_graph_only_hit_below_a_strong_direct_match() {
    let direct = memory();
    let unanchored = memory();
    let keyword = ids(&[&direct]);
    let graph = ids(&[&unanchored]);
    let candidates = vec![direct.clone(), unanchored.clone()];

    let no_floor = rank_with_graph(
        &RecallRanker::new(90),
        &RankedIds::default(),
        &keyword,
        &graph,
        &candidates,
    );
    assert!(
        (score_of(&no_floor, direct.id()) - score_of(&no_floor, unanchored.id())).abs() < 1e-6,
        "with no floor a rank-1 hop and a rank-1 keyword match should tie on score"
    );

    let floored = rank_with_graph(
        &RecallRanker::new(90).with_graph_ranking(1.0f32.to_bits(), 3),
        &RankedIds::default(),
        &keyword,
        &graph,
        &candidates,
    );
    assert!(
        score_of(&floored, direct.id()) > score_of(&floored, unanchored.id()),
        "the floor should let the direct match outrank the graph-only hit"
    );
    assert_eq!(ordered(&floored)[0], direct.id());
    assert!(
        floored.iter().any(|s| s.memory.id() == unanchored.id()),
        "the graph-only hit must still be returned"
    );
}

#[test]
fn the_unanchored_floor_leaves_an_anchored_hop_untouched() {
    let anchored = memory();
    let leg = ids(&[&anchored]);
    let candidates = vec![anchored.clone()];

    let without = rank_with_graph(
        &RecallRanker::new(90),
        &leg,
        &RankedIds::default(),
        &leg,
        &candidates,
    );
    let with = rank_with_graph(
        &RecallRanker::new(90).with_graph_ranking(1.0f32.to_bits(), 3),
        &leg,
        &RankedIds::default(),
        &leg,
        &candidates,
    );

    assert_eq!(
        score_of(&without, anchored.id()),
        score_of(&with, anchored.id()),
        "the floor changed the score of an anchored hop"
    );
}

#[test]
fn recency_breaks_ties_between_equally_ranked_memories() {
    let fresh = memory_aged(0, 1.0);
    let old = memory_aged(365, 1.0);

    let result = rank(
        &ranker(),
        &ids(&[&old, &fresh]),
        &ids(&[&fresh, &old]),
        &vec![old.clone(), fresh.clone()],
    );

    assert_eq!(ordered(&result)[0], fresh.id());
}

#[test]
fn recency_never_erases_a_far_more_relevant_old_memory() {
    let old_and_relevant = memory_aged(730, 1.0);
    let fresh_and_marginal = memory_aged(0, 1.0);

    let mut leg = vec![old_and_relevant.id()];
    leg.extend((0..18).map(|_| MemoryId::new()));
    leg.push(fresh_and_marginal.id());
    let leg = RankedIds(leg);

    let result = rank(
        &ranker(),
        &leg,
        &leg,
        &vec![old_and_relevant.clone(), fresh_and_marginal.clone()],
    );

    assert_eq!(
        ordered(&result)[0],
        old_and_relevant.id(),
        "age must not delete relevance"
    );
}

#[test]
fn recency_may_reorder_near_adjacent_results() {
    let old = memory_aged(730, 1.0);
    let fresh = memory_aged(0, 1.0);

    let result = rank(
        &ranker(),
        &ids(&[&old, &fresh]),
        &ids(&[&old, &fresh]),
        &vec![old.clone(), fresh.clone()],
    );

    assert_eq!(ordered(&result)[0], fresh.id());
}

#[test]
fn a_future_timestamp_gets_no_bonus() {
    let future = memory_aged(-30, 1.0);
    let detail = match_detail(
        &ids(&[&future]),
        &RankedIds::default(),
        &RankedIds::default(),
        future.id(),
    );

    let terms = ranker().score_terms(&future, detail, now());

    assert_eq!(terms.age_seconds, 0, "clock skew must not out-rank everything");
}

#[test]
fn a_zero_half_life_disables_decay_instead_of_dividing_by_zero() {
    let old = memory_aged(1_000, 1.0);
    let detail = match_detail(
        &ids(&[&old]),
        &RankedIds::default(),
        &RankedIds::default(),
        old.id(),
    );

    assert_eq!(RecallRanker::new(0).score_terms(&old, detail, now()).half_life_days, None);
    assert_eq!(
        RecallRanker::new(90).score_terms(&old, detail, now()).half_life_days,
        Some(90)
    );
}

#[test]
fn confidence_breaks_ties_between_equally_ranked_memories() {
    let confident = memory_aged(0, 1.0);
    let unsure = memory_aged(0, 0.1);

    let result = rank(
        &ranker(),
        &ids(&[&unsure, &confident]),
        &ids(&[&confident, &unsure]),
        &vec![unsure.clone(), confident.clone()],
    );

    assert_eq!(ordered(&result)[0], confident.id());
}

#[test]
fn confidence_never_erases_a_memory() {
    let zero_confidence = memory_aged(0, 0.0);

    let result = rank(
        &ranker(),
        &ids(&[&zero_confidence]),
        &RankedIds::default(),
        &vec![zero_confidence.clone()],
    );

    assert_eq!(result.len(), 1);
    assert!(
        f32::from_bits(result[0].score) > 0.0,
        "a memory must never score zero"
    );
}

#[test]
fn ties_are_broken_deterministically_not_by_input_order() {
    let a = memory_aged(0, 1.0);
    let b = memory_aged(0, 1.0);

    let forwards = rank(
        &ranker(),
        &ids(&[&a, &b]),
        &ids(&[&a, &b]),
        &vec![a.clone(), b.clone()],
    );
    let backwards = rank(
        &ranker(),
        &ids(&[&a, &b]),
        &ids(&[&a, &b]),
        &vec![b.clone(), a.clone()],
    );

    assert_eq!(ordered(&forwards), ordered(&backwards));
}

#[test]
fn newer_wins_before_the_id_tiebreak() {
    let older = memory_aged(10, 1.0);
    let newer = memory_aged(0, 1.0);

    let result = rank(
        &ranker(),
        &ids(&[&older, &newer]),
        &ids(&[&newer, &older]),
        &vec![older.clone(), newer.clone()],
    );

    assert_eq!(ordered(&result)[0], newer.id());
}

#[test]
fn equal_scores_are_told_apart_by_age_and_then_by_identifier() {
    let older = memory_aged(10, 1.0);
    let newer = memory_aged(0, 1.0);
    let twin = memory_aged(0, 1.0);
    let leg = ids(&[&older, &newer, &twin]);

    let result = ranker().rank(
        &leg,
        &RankedIds::default(),
        &vec![older.clone(), twin.clone(), newer.clone()],
        &vec![7, 7, 7],
    );

    let (first, second) = if newer.id().value < twin.id().value {
        (newer.id(), twin.id())
    } else {
        (twin.id(), newer.id())
    };
    assert_eq!(ordered(&result), vec![first, second, older.id()]);
}

#[test]
fn an_empty_search_returns_nothing() {
    let result = rank(
        &ranker(),
        &RankedIds::default(),
        &RankedIds::default(),
        &vec![memory()],
    );

    assert!(result.is_empty());
}

#[test]
fn scores_are_finite_for_every_input_combination() {
    for (days, confidence) in [(0, 0.0), (0, 1.0), (36_500, 0.0), (36_500, 1.0)] {
        let memory = memory_aged(days, confidence);
        let result = rank(&ranker(), &ids(&[&memory]), &ids(&[&memory]), &vec![memory.clone()]);
        let score = f32::from_bits(result[0].score);
        assert!(
            score.is_finite() && score > 0.0,
            "score for ({days}d, {confidence}) was {score}"
        );
    }
}

#[test]
fn bit_patterns_stand_in_the_order_of_their_numbers() {
    let rising: [f32; 9] = [
        f32::NEG_INFINITY,
        f32::MIN,
        -1.5,
        -1.0,
        -f32::MIN_POSITIVE,
        0.0,
        f32::MIN_POSITIVE,
        0.25,
        f32::INFINITY,
    ];
    for pair in rising.windows(2) {
        assert!(height_of(pair[0].to_bits()) < height_of(pair[1].to_bits()));
    }
    assert_eq!(
        height_of((-0.0f32).to_bits()),
        height_of((0.0f32).to_bits())
    );
    assert_eq!(height_of(0), 0x8000_0000);
}

#[test]
fn a_score_below_zero_ranks_below_every_other() {
    let below = memory_aged(0, 1.0);
    let above = memory_aged(100, 1.0);
    let (low, high) = (below.id(), above.id());
    let found = ids(&[&below, &above]);
    let nothing = RankedIds::default();
    let result = ranker().rank_with_graph(
        &found,
        &nothing,
        &nothing,
        &vec![below, above],
        &vec![(-0.5f32).to_bits(), 0.125f32.to_bits()],
    );
    assert_eq!(ordered(&result), vec![high, low]);
}
