//! Walks over the entity graph of one user: which memories are connected to
//! the entities that a query names.
//!
//! Rows are walked as the store holds them. What is no memory's identifier
//! shows only where a walk answers it, and what is no point in time is compared
//! as text.
use super::sqlite_entity_graph::SqliteEntityGraph;
use crate::memories::domain::entity_key::{
    distinct, distinct_keys, holds_key, key_views, EntityKey,
};
use crate::memories::domain::memory::{holds_text, option_text};
use crate::order::{comes_first, is_stable_order, stable_order, SortKey};
use crate::shared::error::{RaError, Result};
use crate::shared::ids::{uuid_complaint, uuid_of_text, MemoryId};
use crate::shared::time::{rfc3339_instant, Timestamp};
use crate::text::{
    comes_before, debug_text, quote, same_text, text_before, text_order_is_strict,
    text_order_is_total, text_order_is_transitive, texts,
};
use vstd::prelude::*;
use vstd::string::StringExecFns;

verus! {

/// A stored time: a point in time, or the text that does not read as one.
#[derive(Debug)]
pub enum Stamp {
    At(Timestamp),
    Text(String),
}

pub enum StampView {
    At(Timestamp),
    Text(Seq<char>),
}

impl View for Stamp {
    type V = StampView;

    open spec fn view(&self) -> StampView {
        match self {
            Stamp::At(time) => StampView::At(*time),
            Stamp::Text(raw) => StampView::Text(raw@),
        }
    }
}

impl StampView {
    /// Whether a point in time lies before the stamp.
    pub open spec fn is_after(self, at: Timestamp) -> bool {
        match self {
            StampView::At(time) => at.before(time),
            StampView::Text(raw) => text_before(at.text(), raw),
        }
    }
}

impl Stamp {
    pub fn is_after(&self, at: &Timestamp) -> (after: bool)
        ensures
            after == self@.is_after(*at),
    {
        match self {
            Stamp::At(time) => at.is_before(time),
            Stamp::Text(raw) => comes_before(at.to_text().as_str(), raw.as_str()),
        }
    }
}

/// An edge as a walk crosses it, with its memory as the store names it.
#[derive(Debug)]
pub struct Link {
    pub memory_id: String,
    pub subject: EntityKey,
    pub object: EntityKey,
    pub valid_from: Stamp,
    pub invalid_at: Option<Stamp>,
}

pub struct LinkView {
    pub memory_id: Seq<char>,
    pub subject: Seq<char>,
    pub object: Seq<char>,
    pub valid_from: StampView,
    pub invalid_at: Option<StampView>,
}

impl View for Link {
    type V = LinkView;

    open spec fn view(&self) -> LinkView {
        LinkView {
            memory_id: self.memory_id@,
            subject: self.subject@,
            object: self.object@,
            valid_from: self.valid_from@,
            invalid_at: match self.invalid_at {
                Some(end) => Some(end@),
                None => None,
            },
        }
    }
}

pub open spec fn link_views(links: Seq<Link>) -> Seq<LinkView> {
    links.map_values(|l: Link| l@)
}

impl LinkView {
    /// Whether the edge holds at a point in time.
    pub open spec fn live_at(self, at: Timestamp) -> bool {
        !self.valid_from.is_after(at) && (self.invalid_at is None || self.invalid_at->0.is_after(at))
    }
}

/// The stamp that a column denotes.
pub open spec fn stored_stamp(raw: Seq<char>) -> StampView {
    match rfc3339_instant(raw) {
        Some(parts) => StampView::At(Timestamp::of_parts(parts)),
        None => StampView::Text(raw),
    }
}

/// The edge that a row's columns denote.
pub open spec fn stored_link(
    memory_id: Seq<char>,
    subject: Seq<char>,
    object: Seq<char>,
    valid_from: Seq<char>,
    invalid_at: Option<Seq<char>>,
) -> LinkView {
    LinkView {
        memory_id,
        subject,
        object,
        valid_from: stored_stamp(valid_from),
        invalid_at: match invalid_at {
            Some(raw) => Some(stored_stamp(raw)),
            None => None,
        },
    }
}

fn read_stamp(raw: String) -> (stamp: Stamp)
    ensures
        stamp@ == stored_stamp(raw@),
{
    match Timestamp::parse(raw.as_str()) {
        Ok(time) => {
            proof {
                crate::shared::time::instants_are_their_parts(time, time);
            }
            Stamp::At(time)
        },
        Err(_) => Stamp::Text(raw),
    }
}

/// The edge that a row's columns denote.
pub fn read_link(
    memory_id: String,
    subject: String,
    object: String,
    valid_from: String,
    invalid_at: Option<String>,
) -> (link: Link)
    ensures
        link@ == stored_link(
            memory_id@,
            subject@,
            object@,
            valid_from@,
            option_text(invalid_at),
        ),
{
    Link {
        memory_id,
        subject: EntityKey::from_stored(subject),
        object: EntityKey::from_stored(object),
        valid_from: read_stamp(valid_from),
        invalid_at: match invalid_at {
            Some(raw) => Some(read_stamp(raw)),
            None => None,
        },
    }
}

/// Whether a walk from `seeds` arrives at `key` within `steps` edges that
/// hold at `at`, each crossed in either direction.
pub open spec fn reached(
    edges: Seq<LinkView>,
    seeds: Seq<Seq<char>>,
    at: Timestamp,
    steps: nat,
    key: Seq<char>,
) -> bool
    decreases steps,
{
    if steps == 0 {
        key.len() > 0 && seeds.contains(key)
    } else {
        reached(edges, seeds, at, (steps - 1) as nat, key) || exists|i: int|
            0 <= i < edges.len() && (#[trigger] edges[i]).live_at(at) && ((edges[i].subject == key
                && reached(edges, seeds, at, (steps - 1) as nat, edges[i].object)) || (
            edges[i].object == key && reached(
                edges,
                seeds,
                at,
                (steps - 1) as nat,
                edges[i].subject,
            )))
    }
}

/// Whether edge `i` holds and has an end within `steps` of a seed.
pub open spec fn touched(
    edges: Seq<LinkView>,
    seeds: Seq<Seq<char>>,
    at: Timestamp,
    steps: nat,
    i: int,
) -> bool {
    edges[i].live_at(at) && (reached(edges, seeds, at, steps, edges[i].subject) || reached(
        edges,
        seeds,
        at,
        steps,
        edges[i].object,
    ))
}

/// Whether an edge of the memory is touched within `steps`.
pub open spec fn memory_touched(
    edges: Seq<LinkView>,
    seeds: Seq<Seq<char>>,
    at: Timestamp,
    steps: nat,
    id: Seq<char>,
) -> bool {
    exists|i: int|
        0 <= i < edges.len() && (#[trigger] edges[i]).memory_id == id && touched(
            edges,
            seeds,
            at,
            steps,
            i,
        )
}

/// The least number of steps below `bound` within which the memory is
/// touched, if any. The memory is one hop further out.
pub open spec fn distance(
    edges: Seq<LinkView>,
    seeds: Seq<Seq<char>>,
    at: Timestamp,
    bound: nat,
    id: Seq<char>,
) -> Option<nat>
    decreases bound,
{
    if bound == 0 {
        None
    } else {
        match distance(edges, seeds, at, (bound - 1) as nat, id) {
            Some(k) => Some(k),
            None => if memory_touched(edges, seeds, at, (bound - 1) as nat, id) {
                Some((bound - 1) as nat)
            } else {
                None
            },
        }
    }
}

/// How many of the keys a walk of `hops` hops leads from to the memory, each
/// taken by itself.
pub open spec fn reaching(
    edges: Seq<LinkView>,
    keys: Seq<Seq<char>>,
    at: Timestamp,
    hops: nat,
    id: Seq<char>,
) -> nat
    decreases keys.len(),
{
    if keys.len() == 0 {
        0
    } else {
        reaching(edges, keys.drop_last(), at, hops, id) + (if distance(
            edges,
            seq![keys.last()],
            at,
            hops,
            id,
        ) is Some {
            1nat
        } else {
            0nat
        })
    }
}

/// Whether a reached memory comes before another: by hop distance, then by
/// how many of the entities that the walk starts from reach it, then by
/// identifier.
pub open spec fn nearer(
    edges: Seq<LinkView>,
    seeds: Seq<Seq<char>>,
    at: Timestamp,
    hops: nat,
    a: Seq<char>,
    b: Seq<char>,
) -> bool {
    let (da, db) = (
        distance(edges, seeds, at, hops, a)->0,
        distance(edges, seeds, at, hops, b)->0,
    );
    let (ca, cb) = (
        reaching(edges, distinct_keys(seeds), at, hops, a),
        reaching(edges, distinct_keys(seeds), at, hops, b),
    );
    da < db || (da == db && (ca > cb || (ca == cb && text_before(a, b))))
}

/// What a walk answers: the reached memories, nearest first, at most `limit`
/// of them, and none left out that comes before one that is in.
pub open spec fn is_walk(
    found: Seq<Seq<char>>,
    edges: Seq<LinkView>,
    seeds: Seq<Seq<char>>,
    at: Timestamp,
    hops: nat,
    limit: nat,
) -> bool {
    &&& found.len() <= limit
    &&& forall|i: int|
        0 <= i < found.len() ==> distance(edges, seeds, at, hops, #[trigger] found[i]) is Some
    &&& forall|i: int, j: int|
        0 <= i < j < found.len() ==> nearer(
            edges,
            seeds,
            at,
            hops,
            #[trigger] found[i],
            #[trigger] found[j],
        )
    &&& forall|id: Seq<char>|
        (#[trigger] distance(edges, seeds, at, hops, id)) is Some && !found.contains(id)
            ==> found.len() == limit && forall|i: int|
            0 <= i < found.len() ==> nearer(edges, seeds, at, hops, #[trigger] found[i], id)
}

pub open spec fn graph_id_complaint(raw: Seq<char>) -> Seq<char> {
    "graph memory id "@ + debug_text(raw) + " is not a uuid: "@ + uuid_complaint(raw)
}

fn graph_id(raw: &str) -> (id: Result<MemoryId>)
    ensures
        match id {
            Ok(i) => uuid_of_text(raw@) == Some(i.value),
            Err(e) => uuid_of_text(raw@) is None && e is Internal && e.text()
                == graph_id_complaint(raw@),
        },
{
    match MemoryId::parse(raw) {
        Ok(id) => Ok(id),
        Err(reason) => {
            let mut sentence = "graph memory id ".to_owned();
            sentence.append(quote(raw).as_str());
            sentence.append(" is not a uuid: ");
            sentence.append(reason.as_str());
            Err(RaError::Internal(sentence))
        },
    }
}

/// When a walk sees the graph: as it was at a point in time, or as it is now.
pub open spec fn walked_at(as_of: Option<Timestamp>, now: Timestamp) -> Timestamp {
    match as_of {
        Some(at) => at,
        None => now,
    }
}

/// What comes of reading names as identifiers: the identifiers, or the complaint
/// about the first name that is none.
pub open spec fn are_read(found: Result<Vec<MemoryId>>, names: Seq<Seq<char>>) -> bool {
    match found {
        Ok(ids) => ids@.len() == names.len() && forall|i: int|
            0 <= i < names.len() ==> uuid_of_text(#[trigger] names[i]) == Some(ids@[i].value),
        Err(e) => exists|k: int|
            0 <= k < names.len() && uuid_of_text(#[trigger] names[k]) is None && (forall|i: int|
                0 <= i < k ==> uuid_of_text(#[trigger] names[i]) is Some) && e is Internal
                && e.text() == graph_id_complaint(names[k]),
    }
}

fn read_names(names: &Vec<String>) -> (found: Result<Vec<MemoryId>>)
    ensures
        are_read(found, texts(names@)),
{
    let ghost all = texts(names@);
    let mut ids: Vec<MemoryId> = Vec::new();
    let mut i: usize = 0;
    while i < names.len()
        invariant
            0 <= i <= names@.len(),
            all == texts(names@),
            ids@.len() == i,
            forall|j: int| 0 <= j < i ==> uuid_of_text(#[trigger] all[j]) == Some(ids@[j].value),
        decreases names@.len() - i,
    {
        assert(all[i as int] == names@[i as int]@);
        match graph_id(names[i].as_str()) {
            Ok(id) => ids.push(id),
            Err(e) => return Err(e),
        }
        i += 1;
    }
    Ok(ids)
}

fn is_live(edge: &Link, at: &Timestamp) -> (live: bool)
    ensures
        live == edge@.live_at(*at),
{
    if edge.valid_from.is_after(at) {
        false
    } else {
        match &edge.invalid_at {
            Some(end) => end.is_after(at),
            None => true,
        }
    }
}

impl SqliteEntityGraph {
    /// The memories reachable from `seeds` within `hops` edges that hold at
    /// `as_of`, or now, at most `limit` of them, as the store names them:
    /// nearest first, and at one distance those first that more of the seeds
    /// reach.
    ///
    /// The walk crosses an edge in either direction: `the team that owns X`
    /// and `the person who leads that team` are one chain read forwards and
    /// backwards. Without seeds nothing is reached.
    pub fn walk(
        &self,
        edges: &Vec<Link>,
        seeds: &Vec<EntityKey>,
        hops: usize,
        as_of: Option<Timestamp>,
        now: Timestamp,
        limit: usize,
    ) -> (found: Vec<String>)
        ensures
            is_walk(
                texts(found@),
                link_views(edges@),
                key_views(seeds@),
                walked_at(as_of, now),
                hops as nat,
                limit as nat,
            ),
    {
        let at = match as_of {
            Some(at) => at,
            None => now,
        };
        let firsts = self.first_touches(edges, seeds, hops, at);
        let alone = self.touches_alone(edges, &distinct(seeds), hops, at);
        let ghost es = link_views(edges@);
        let ghost ks = key_views(seeds@);
        let mut ids: Vec<String> = Vec::new();
        let mut keys: Vec<SortKey> = Vec::new();
        let mut i: usize = 0;
        while i < edges.len()
            invariant
                0 <= i <= edges@.len(),
                es == link_views(edges@),
                firsts_hold(firsts@, es, ks, at, hops as nat),
                alone_hold(alone@, es, distinct_keys(ks), at, hops as nat),
                ids@.len() == keys@.len(),
                texts(ids@).no_duplicates(),
                forall|j: int|
                    0 <= j < ids@.len() ==> hit_key(
                        es,
                        ks,
                        at,
                        hops as nat,
                        #[trigger] texts(ids@)[j],
                        keys@[j],
                    ),
                forall|j: int|
                    0 <= j < i && #[trigger] firsts@[j] is Some ==> texts(ids@).contains(
                        es[j].memory_id,
                    ),
            decreases edges@.len() - i,
        {
            let id = &edges[i].memory_id;
            assert(es[i as int].memory_id == id@);
            if firsts[i].is_some() && !holds_text(&ids, id) {
                let key = self.hit_key_of(
                    edges,
                    &firsts,
                    &alone,
                    Ghost(ks),
                    Ghost(at),
                    hops,
                    id,
                    i,
                );
                let ghost before = texts(ids@);
                ids.push(id.clone());
                keys.push(key);
                proof {
                    let names = texts(ids@);
                    assert(names =~= before.push(id@));
                    assert(names[before.len() as int] == id@);
                    assert forall|j: int| 0 <= j < ids@.len() implies hit_key(
                        es,
                        ks,
                        at,
                        hops as nat,
                        #[trigger] names[j],
                        keys@[j],
                    ) by {
                        if j < before.len() {
                            assert(names[j] == before[j]);
                        }
                    }
                    assert forall|a: int, b: int| 0 <= a < b < names.len() implies names[a]
                        != names[b] by {
                        if b == before.len() {
                            assert(before.contains(before[a]));
                        }
                    }
                    assert forall|j: int| 0 <= j < i && #[trigger] firsts@[j] is Some implies names.contains(
                        es[j].memory_id,
                    ) by {
                        let p = choose|p: int|
                            0 <= p < before.len() && before[p] == es[j].memory_id;
                        assert(names[p] == es[j].memory_id);
                    }
                }
            }
            i += 1;
        }
        let order = stable_order(&keys);
        let mut found: Vec<String> = Vec::new();
        let mut k: usize = 0;
        while k < order.len() && k < limit
            invariant
                0 <= k <= order@.len(),
                k <= limit,
                ids@.len() == keys@.len(),
                is_stable_order(order@, keys@),
                found@.len() == k,
                forall|j: int|
                    0 <= j < k ==> #[trigger] texts(found@)[j] == texts(ids@)[order@[j] as int],
            decreases order@.len() - k,
        {
            assert(order@[k as int] < keys@.len());
            let ghost before = texts(found@);
            let ghost added = texts(ids@)[order@[k as int] as int];
            found.push(ids[order[k]].clone());
            assert(texts(found@) =~= before.push(added));
            k += 1;
        }
        proof {
            lemma_walk(
                texts(found@),
                texts(ids@),
                keys@,
                order@,
                firsts@,
                es,
                ks,
                at,
                hops as nat,
                limit as nat,
            );
        }
        found
    }

    /// The memories that a walk reaches. A memory among them whose identifier
    /// does not read as one is an error.
    pub fn neighbours(
        &self,
        edges: &Vec<Link>,
        seeds: &Vec<EntityKey>,
        hops: usize,
        as_of: Option<Timestamp>,
        now: Timestamp,
        limit: usize,
    ) -> (found: Result<Vec<MemoryId>>)
        ensures
            exists|names: Seq<Seq<char>>|
                #[trigger] is_walk(
                    names,
                    link_views(edges@),
                    key_views(seeds@),
                    walked_at(as_of, now),
                    hops as nat,
                    limit as nat,
                ) && are_read(found, names),
    {
        let names = self.walk(edges, seeds, hops, as_of, now, limit);
        read_names(&names)
    }

    /// Whether a memory has filed any relation, open or closed.
    pub fn has_relations(&self, edges: &Vec<Link>, memory_id: MemoryId) -> (has: bool)
        ensures
            has == exists|i: int|
                0 <= i < link_views(edges@).len() && (#[trigger] link_views(edges@)[i]).memory_id
                    == memory_id.text(),
    {
        let name = memory_id.to_text();
        let mut i: usize = 0;
        while i < edges.len()
            invariant
                0 <= i <= edges@.len(),
                name@ == memory_id.text(),
                forall|j: int|
                    0 <= j < i ==> (#[trigger] link_views(edges@)[j]).memory_id != name@,
            decreases edges@.len() - i,
        {
            assert(link_views(edges@)[i as int] == edges@[i as int]@);
            if same_text(edges[i].memory_id.as_str(), name.as_str()) {
                return true;
            }
            i += 1;
        }
        false
    }

    /// For each edge, the least number of steps below `hops` within which it
    /// is touched.
    fn first_touches(
        &self,
        edges: &Vec<Link>,
        seeds: &Vec<EntityKey>,
        hops: usize,
        at: Timestamp,
    ) -> (firsts: Vec<Option<usize>>)
        ensures
            firsts_hold(firsts@, link_views(edges@), key_views(seeds@), at, hops as nat),
    {
        let ghost es = link_views(edges@);
        let ghost ks = key_views(seeds@);
        let mut firsts: Vec<Option<usize>> = Vec::new();
        let mut n: usize = 0;
        while n < edges.len()
            invariant
                0 <= n <= edges@.len(),
                firsts@.len() == n,
                forall|i: int| 0 <= i < n ==> #[trigger] firsts@[i] is None,
            decreases edges@.len() - n,
        {
            firsts.push(None);
            n += 1;
        }
        let mut keys = distinct(seeds);
        proof {
            assert forall|key: Seq<char>| #[trigger]
                key_views(keys@).contains(key) == reached(es, ks, at, 0, key) by {
                crate::memories::domain::entity_key::distinct_keys_hold_the_same(ks, key);
            }
        }
        let mut level: usize = 0;
        let mut growing = true;
        while level < hops && growing
            invariant
                es == link_views(edges@),
                ks == key_views(seeds@),
                firsts@.len() == edges@.len(),
                level <= hops,
                firsts_hold(firsts@, es, ks, at, level as nat),
                forall|key: Seq<char>| #[trigger]
                    key_views(keys@).contains(key) == reached(es, ks, at, level as nat, key),
                !growing ==> level > 0 && forall|key: Seq<char>|
                    reached(es, ks, at, level as nat, key) ==> #[trigger] reached(
                        es,
                        ks,
                        at,
                        (level - 1) as nat,
                        key,
                    ),
            decreases hops - level,
        {
            let ghost old_keys = keys@;
            let ghost old_firsts = firsts@;
            let known: usize = keys.len();
            let mut i: usize = 0;
            growing = false;
            while i < edges.len()
                invariant
                    0 <= i <= edges@.len(),
                    level < hops,
                    known == old_keys.len(),
                    es == link_views(edges@),
                    firsts@.len() == edges@.len(),
                    old_firsts.len() == edges@.len(),
                    firsts_hold(old_firsts, es, ks, at, level as nat),
                    forall|key: Seq<char>| #[trigger]
                        key_views(old_keys).contains(key) == reached(es, ks, at, level as nat, key),
                    forall|j: int|
                        0 <= j < i ==> first_holds(
                            #[trigger] firsts@[j],
                            es,
                            ks,
                            at,
                            (level + 1) as nat,
                            j,
                        ),
                    forall|j: int| i <= j < edges@.len() ==> #[trigger] firsts@[j] == old_firsts[j],
                    keys@.len() >= old_keys.len(),
                    keys@.take(old_keys.len() as int) == old_keys,
                    forall|p: int|
                        old_keys.len() <= p < keys@.len() ==> ends_touched(
                            es,
                            ks,
                            at,
                            level as nat,
                            i as int,
                            (#[trigger] keys@[p])@,
                        ),
                    forall|j: int|
                        0 <= j < i && #[trigger] touched(es, ks, at, level as nat, j)
                            ==> key_views(keys@).contains(es[j].subject) && key_views(
                            keys@,
                        ).contains(es[j].object),
                    !growing ==> keys@ == old_keys,
                decreases edges@.len() - i,
            {
                let ghost here = keys@;
                assert(es[i as int] == edges@[i as int]@);
                let touches = is_live(&edges[i], &at) && (holds_key_below(
                    &keys,
                    known,
                    &edges[i].subject,
                ) || holds_key_below(&keys, known, &edges[i].object));
                assert(touches == touched(es, ks, at, level as nat, i as int));
                proof {
                    assert(first_holds(old_firsts[i as int], es, ks, at, level as nat, i as int));
                }
                if touches && firsts[i].is_none() {
                    firsts.set(i, Some(level));
                }
                proof {
                    lemma_first_step(
                        old_firsts[i as int],
                        firsts@[i as int],
                        es,
                        ks,
                        at,
                        level,
                        i as int,
                    );
                }
                if touches {
                    if !holds_key(&keys, &edges[i].subject) {
                        keys.push(edges[i].subject.copy());
                        growing = true;
                        assert(key_views(keys@)[keys@.len() - 1] == es[i as int].subject);
                    }
                    let ghost middle = keys@;
                    assert(key_views(middle).contains(es[i as int].subject));
                    if !holds_key(&keys, &edges[i].object) {
                        keys.push(edges[i].object.copy());
                        growing = true;
                        assert(key_views(keys@)[keys@.len() - 1] == es[i as int].object);
                    }
                    assert(key_views(keys@).contains(es[i as int].object));
                    proof {
                        lemma_key_kept(middle, keys@, es[i as int].subject);
                        assert(keys@.take(old_keys.len() as int) =~= old_keys);
                    }
                }
                proof {
                    assert forall|p: int| old_keys.len() <= p < keys@.len() implies ends_touched(
                        es,
                        ks,
                        at,
                        level as nat,
                        i + 1,
                        (#[trigger] keys@[p])@,
                    ) by {
                        if p < here.len() {
                            assert(keys@[p] == here[p]);
                            assert(ends_touched(es, ks, at, level as nat, i as int, here[p]@));
                        }
                    }
                    assert forall|j: int|
                        0 <= j < i + 1 && #[trigger] touched(
                            es,
                            ks,
                            at,
                            level as nat,
                            j,
                        ) implies key_views(keys@).contains(es[j].subject) && key_views(
                        keys@,
                    ).contains(es[j].object) by {
                        if j < i {
                            lemma_key_kept(here, keys@, es[j].subject);
                            lemma_key_kept(here, keys@, es[j].object);
                        }
                    }
                }
                i += 1;
            }
            proof {
                assert forall|key: Seq<char>| #[trigger]
                    key_views(keys@).contains(key) == reached(
                    es,
                    ks,
                    at,
                    (level + 1) as nat,
                    key,
                ) by {
                    lemma_level(old_keys, keys@, es, ks, at, level as nat, key);
                }
                if !growing {
                    assert forall|key: Seq<char>|
                        reached(es, ks, at, (level + 1) as nat, key) implies #[trigger] reached(
                        es,
                        ks,
                        at,
                        level as nat,
                        key,
                    ) by {
                        assert(key_views(keys@).contains(key));
                    }
                }
            }
            level += 1;
        }
        proof {
            if level < hops {
                assert forall|i: int| 0 <= i < firsts@.len() implies first_holds(
                    #[trigger] firsts@[i],
                    es,
                    ks,
                    at,
                    hops as nat,
                    i,
                ) by {
                    lemma_settled_walk(firsts@[i], es, ks, at, level as nat, hops as nat, i);
                }
            }
        }
        firsts
    }

    /// For each start, what a walk from it alone touches.
    fn touches_alone(
        &self,
        edges: &Vec<Link>,
        starts: &Vec<EntityKey>,
        hops: usize,
        at: Timestamp,
    ) -> (alone: Vec<Vec<Option<usize>>>)
        ensures
            alone_hold(alone@, link_views(edges@), key_views(starts@), at, hops as nat),
    {
        let ghost es = link_views(edges@);
        let ghost all = key_views(starts@);
        let mut alone: Vec<Vec<Option<usize>>> = Vec::new();
        let mut s: usize = 0;
        while s < starts.len()
            invariant
                0 <= s <= starts@.len(),
                es == link_views(edges@),
                all == key_views(starts@),
                alone@.len() == s,
                forall|j: int|
                    0 <= j < s ==> firsts_hold(
                        (#[trigger] alone@[j])@,
                        es,
                        seq![all[j]],
                        at,
                        hops as nat,
                    ),
            decreases starts@.len() - s,
        {
            let mut one: Vec<EntityKey> = Vec::new();
            one.push(starts[s].copy());
            assert(key_views(one@) =~= seq![all[s as int]]);
            let firsts = self.first_touches(edges, &one, hops, at);
            alone.push(firsts);
            s += 1;
        }
        alone
    }

    /// What a reached memory is sorted by: its distance, how many of the
    /// starts reach it, its identifier.
    fn hit_key_of(
        &self,
        edges: &Vec<Link>,
        firsts: &Vec<Option<usize>>,
        alone: &Vec<Vec<Option<usize>>>,
        Ghost(ks): Ghost<Seq<Seq<char>>>,
        Ghost(at): Ghost<Timestamp>,
        hops: usize,
        id: &String,
        witness: usize,
    ) -> (key: SortKey)
        requires
            firsts_hold(firsts@, link_views(edges@), ks, at, hops as nat),
            alone_hold(alone@, link_views(edges@), distinct_keys(ks), at, hops as nat),
            witness < edges@.len(),
            edges@[witness as int].memory_id@ == id@,
            firsts@[witness as int] is Some,
        ensures
            hit_key(link_views(edges@), ks, at, hops as nat, id@, key),
    {
        let ghost es = link_views(edges@);
        assert(es[witness as int].memory_id == id@);
        let nearest: usize = match nearest_touch(edges, firsts, Ghost(ks), Ghost(at), hops, id) {
            Some(nearest) => nearest,
            None => hops,
        };
        let ghost starts = distinct_keys(ks);
        let mut count: usize = 0;
        let mut s: usize = 0;
        assert(starts.take(0) =~= Seq::empty());
        while s < alone.len()
            invariant
                0 <= s <= alone@.len(),
                es == link_views(edges@),
                alone_hold(alone@, es, starts, at, hops as nat),
                count <= s,
                count == reaching(es, starts.take(s as int), at, hops as nat, id@),
            decreases alone@.len() - s,
        {
            proof {
                assert(starts.take(s + 1).drop_last() =~= starts.take(s as int));
                assert(starts.take(s + 1).last() == starts[s as int]);
                assert(firsts_hold(alone@[s as int]@, es, seq![starts[s as int]], at, hops as nat));
            }
            let ghost start = seq![starts[s as int]];
            let reach = nearest_touch(edges, &alone[s], Ghost(start), Ghost(at), hops, id);
            if reach.is_some() {
                count += 1;
            }
            s += 1;
        }
        assert(starts.take(starts.len() as int) =~= starts);
        (nearest as u128, (usize::MAX - count) as u128, rank_of(edges, id) as u128)
    }
}

/// How many of the first `n` edges are of a memory named before this one.
spec fn rank_below(es: Seq<LinkView>, id: Seq<char>, n: nat) -> nat
    decreases n,
{
    if n == 0 {
        0
    } else {
        rank_below(es, id, (n - 1) as nat) + (if text_before(es[n - 1].memory_id, id) {
            1nat
        } else {
            0nat
        })
    }
}

/// A number that orders the memories of the edges by name.
fn rank_of(edges: &Vec<Link>, id: &String) -> (rank: usize)
    ensures
        rank == rank_below(link_views(edges@), id@, edges@.len()),
{
    let ghost es = link_views(edges@);
    let mut rank: usize = 0;
    let mut i: usize = 0;
    while i < edges.len()
        invariant
            0 <= i <= edges@.len(),
            es == link_views(edges@),
            rank <= i,
            rank == rank_below(es, id@, i as nat),
        decreases edges@.len() - i,
    {
        assert(es[i as int].memory_id == edges@[i as int].memory_id@);
        if comes_before(edges[i].memory_id.as_str(), id.as_str()) {
            rank += 1;
        }
        i += 1;
    }
    rank
}

/// Of two memories, the one named first has no edge counted that the other has
/// not, and its own edges count for the other.
proof fn lemma_rank(es: Seq<LinkView>, a: Seq<char>, b: Seq<char>, n: nat)
    requires
        n <= es.len(),
        text_before(a, b),
    ensures
        rank_below(es, a, n) <= rank_below(es, b, n),
        (exists|i: int| 0 <= i < n && (#[trigger] es[i]).memory_id == a) ==> rank_below(es, a, n)
            < rank_below(es, b, n),
    decreases n,
{
    if n > 0 {
        lemma_rank(es, a, b, (n - 1) as nat);
        let last = es[n - 1].memory_id;
        text_order_is_strict(a, a);
        if text_before(last, a) {
            text_order_is_transitive(last, a, b);
        }
        if exists|i: int| 0 <= i < n && (#[trigger] es[i]).memory_id == a {
            let i = choose|i: int| 0 <= i < n && (#[trigger] es[i]).memory_id == a;
            if i < n - 1 {
                assert(es[i].memory_id == a);
            }
        }
    }
}

/// Names that rank alike are one, and the lower rank is named first.
proof fn lemma_ranks_order(es: Seq<LinkView>, a: Seq<char>, b: Seq<char>)
    requires
        exists|i: int| 0 <= i < es.len() && (#[trigger] es[i]).memory_id == a,
        exists|i: int| 0 <= i < es.len() && (#[trigger] es[i]).memory_id == b,
        a != b,
    ensures
        rank_below(es, a, es.len()) != rank_below(es, b, es.len()),
        rank_below(es, a, es.len()) < rank_below(es, b, es.len()) ==> text_before(a, b),
{
    text_order_is_total(a, b);
    if text_before(a, b) {
        lemma_rank(es, a, b, es.len());
    } else {
        lemma_rank(es, b, a, es.len());
    }
}

/// How far out a memory is in a walk, if the walk reaches it.
fn nearest_touch(
    edges: &Vec<Link>,
    firsts: &Vec<Option<usize>>,
    Ghost(ks): Ghost<Seq<Seq<char>>>,
    Ghost(at): Ghost<Timestamp>,
    hops: usize,
    id: &String,
) -> (nearest: Option<usize>)
    requires
        firsts_hold(firsts@, link_views(edges@), ks, at, hops as nat),
    ensures
        match nearest {
            Some(k) => distance(link_views(edges@), ks, at, hops as nat, id@) == Some(k as nat),
            None => distance(link_views(edges@), ks, at, hops as nat, id@) is None && forall|i: int|
                0 <= i < edges@.len() && (#[trigger] link_views(edges@)[i]).memory_id == id@
                    ==> firsts@[i] is None,
        },
{
    let ghost es = link_views(edges@);
    let mut nearest: Option<usize> = None;
    let mut j: usize = 0;
    while j < edges.len()
        invariant
            0 <= j <= edges@.len(),
            es == link_views(edges@),
            firsts_hold(firsts@, es, ks, at, hops as nat),
            nearest matches Some(k) ==> exists|i: int|
                0 <= i < j && es[i].memory_id == id@ && #[trigger] firsts@[i] == Some(k),
            forall|i: int|
                0 <= i < j && es[i].memory_id == id@ && (#[trigger] firsts@[i]) is Some
                    ==> nearest is Some && nearest->0 <= firsts@[i]->0,
        decreases edges@.len() - j,
    {
        assert(es[j as int].memory_id == edges@[j as int].memory_id@);
        if same_text(edges[j].memory_id.as_str(), id.as_str()) {
            match (firsts[j], nearest) {
                (Some(k), Some(best)) => {
                    if k < best {
                        nearest = Some(k);
                    }
                },
                (Some(k), None) => {
                    nearest = Some(k);
                },
                (None, _) => {},
            }
        }
        j += 1;
    }
    proof {
        match nearest {
            Some(k) => {
                lemma_distance(firsts@, es, ks, at, hops as nat, id@, k);
            },
            None => {
                assert forall|i: int| 0 <= i < es.len() && (#[trigger] es[i]).memory_id
                    == id@ implies firsts@[i] is None by {
                    if firsts@[i] is Some {
                        assert(nearest is Some);
                    }
                }
                lemma_unreached(firsts@, es, ks, at, hops as nat, id@);
            },
        }
    }
    nearest
}

/// Whether a key is among the first `known` of a growing list.
fn holds_key_below(keys: &Vec<EntityKey>, known: usize, key: &EntityKey) -> (held: bool)
    requires
        known <= keys@.len(),
    ensures
        held == key_views(keys@.take(known as int)).contains(key@),
{
    let ghost first = key_views(keys@.take(known as int));
    let mut i: usize = 0;
    while i < known
        invariant
            0 <= i <= known <= keys@.len(),
            first == key_views(keys@.take(known as int)),
            forall|j: int| 0 <= j < i ==> #[trigger] first[j] != key@,
        decreases known - i,
    {
        assert(first[i as int] == keys@[i as int]@);
        if keys[i].same(key) {
            return true;
        }
        i += 1;
    }
    false
}

/// What is known of an edge after looking at fewer than `bound` steps.
spec fn first_holds(
    first: Option<usize>,
    es: Seq<LinkView>,
    ks: Seq<Seq<char>>,
    at: Timestamp,
    bound: nat,
    i: int,
) -> bool {
    match first {
        Some(k) => k < bound && touched(es, ks, at, k as nat, i) && (k > 0 ==> !touched(
            es,
            ks,
            at,
            (k - 1) as nat,
            i,
        )),
        None => bound > 0 ==> !touched(es, ks, at, (bound - 1) as nat, i),
    }
}

spec fn firsts_hold(
    firsts: Seq<Option<usize>>,
    es: Seq<LinkView>,
    ks: Seq<Seq<char>>,
    at: Timestamp,
    bound: nat,
) -> bool {
    firsts.len() == es.len() && forall|i: int|
        0 <= i < firsts.len() ==> first_holds(#[trigger] firsts[i], es, ks, at, bound, i)
}

/// `alone` holds, for each key, what a walk from it alone touches.
spec fn alone_hold(
    alone: Seq<Vec<Option<usize>>>,
    es: Seq<LinkView>,
    keys: Seq<Seq<char>>,
    at: Timestamp,
    bound: nat,
) -> bool {
    alone.len() == keys.len() && forall|j: int|
        0 <= j < alone.len() ==> firsts_hold((#[trigger] alone[j])@, es, seq![keys[j]], at, bound)
}

/// `key` is what the memory is sorted by.
spec fn hit_key(
    es: Seq<LinkView>,
    ks: Seq<Seq<char>>,
    at: Timestamp,
    hops: nat,
    id: Seq<char>,
    key: SortKey,
) -> bool {
    &&& distance(es, ks, at, hops, id) == Some(key.0 as nat)
    &&& key.1 == usize::MAX - reaching(es, distinct_keys(ks), at, hops, id)
    &&& key.2 == rank_below(es, id, es.len())
    &&& exists|i: int| 0 <= i < es.len() && (#[trigger] es[i]).memory_id == id
}

/// Whether a key is an end of a touched edge among the first `n`.
spec fn ends_touched(
    es: Seq<LinkView>,
    ks: Seq<Seq<char>>,
    at: Timestamp,
    level: nat,
    n: int,
    key: Seq<char>,
) -> bool {
    exists|j: int|
        0 <= j < n && #[trigger] touched(es, ks, at, level, j) && (es[j].subject == key
            || es[j].object == key)
}

/// What is reached within some steps is reached within more.
pub proof fn walks_grow(
    es: Seq<LinkView>,
    ks: Seq<Seq<char>>,
    at: Timestamp,
    fewer: nat,
    more: nat,
    key: Seq<char>,
)
    requires
        fewer <= more,
        reached(es, ks, at, fewer, key),
    ensures
        reached(es, ks, at, more, key),
    decreases more,
{
    if fewer < more {
        walks_grow(es, ks, at, fewer, (more - 1) as nat, key);
    }
}

proof fn lemma_touch_grows(
    es: Seq<LinkView>,
    ks: Seq<Seq<char>>,
    at: Timestamp,
    fewer: nat,
    more: nat,
    i: int,
)
    requires
        fewer <= more,
        touched(es, ks, at, fewer, i),
    ensures
        touched(es, ks, at, more, i),
{
    if reached(es, ks, at, fewer, es[i].subject) {
        walks_grow(es, ks, at, fewer, more, es[i].subject);
    } else {
        walks_grow(es, ks, at, fewer, more, es[i].object);
    }
}

proof fn lemma_first_step(
    before: Option<usize>,
    after: Option<usize>,
    es: Seq<LinkView>,
    ks: Seq<Seq<char>>,
    at: Timestamp,
    level: usize,
    i: int,
)
    requires
        first_holds(before, es, ks, at, level as nat, i),
        after == (if before is None && touched(es, ks, at, level as nat, i) {
            Some(level)
        } else {
            before
        }),
    ensures
        first_holds(after, es, ks, at, (level + 1) as nat, i),
{
}

proof fn lemma_key_kept(before: Seq<EntityKey>, after: Seq<EntityKey>, key: Seq<char>)
    requires
        before.len() <= after.len(),
        forall|i: int| 0 <= i < before.len() ==> #[trigger] after[i] == before[i],
    ensures
        key_views(before).contains(key) ==> key_views(after).contains(key),
{
    if key_views(before).contains(key) {
        let i = choose|i: int| 0 <= i < key_views(before).len() && key_views(before)[i] == key;
        assert(after[i] == before[i]);
        assert(key_views(after)[i] == key);
    }
}

/// One step of the walk: the ends of the touched edges are what is reached
/// next.
proof fn lemma_step(
    es: Seq<LinkView>,
    ks: Seq<Seq<char>>,
    at: Timestamp,
    level: nat,
    key: Seq<char>,
)
    ensures
        reached(es, ks, at, (level + 1) as nat, key) <==> reached(es, ks, at, level, key)
            || ends_touched(es, ks, at, level, es.len() as int, key),
{
    if reached(es, ks, at, (level + 1) as nat, key) && !reached(es, ks, at, level, key) {
        let i = choose|i: int|
            0 <= i < es.len() && (#[trigger] es[i]).live_at(at) && ((es[i].subject == key
                && reached(es, ks, at, level, es[i].object)) || (es[i].object == key && reached(
                es,
                ks,
                at,
                level,
                es[i].subject,
            )));
        assert(touched(es, ks, at, level, i));
    }
    if ends_touched(es, ks, at, level, es.len() as int, key) && !reached(es, ks, at, level, key) {
        let j = choose|j: int|
            0 <= j < es.len() && #[trigger] touched(es, ks, at, level, j) && (es[j].subject == key
                || es[j].object == key);
        assert(es[j].live_at(at));
    }
}

proof fn lemma_level(
    old_keys: Seq<EntityKey>,
    keys: Seq<EntityKey>,
    es: Seq<LinkView>,
    ks: Seq<Seq<char>>,
    at: Timestamp,
    level: nat,
    key: Seq<char>,
)
    requires
        old_keys.len() <= keys.len(),
        keys.take(old_keys.len() as int) == old_keys,
        forall|k: Seq<char>| #[trigger]
            key_views(old_keys).contains(k) == reached(es, ks, at, level, k),
        forall|p: int|
            old_keys.len() <= p < keys.len() ==> ends_touched(
                es,
                ks,
                at,
                level,
                es.len() as int,
                (#[trigger] keys[p])@,
            ),
        forall|j: int|
            0 <= j < es.len() && #[trigger] touched(es, ks, at, level, j) ==> key_views(
                keys,
            ).contains(es[j].subject) && key_views(keys).contains(es[j].object),
    ensures
        key_views(keys).contains(key) == reached(es, ks, at, (level + 1) as nat, key),
{
    lemma_step(es, ks, at, level, key);
    assert forall|i: int| 0 <= i < old_keys.len() implies #[trigger] keys[i] == old_keys[i] by {
        assert(keys.take(old_keys.len() as int)[i] == old_keys[i]);
    }
    lemma_key_kept(old_keys, keys, key);
    if key_views(keys).contains(key) {
        let p = choose|p: int| 0 <= p < key_views(keys).len() && key_views(keys)[p] == key;
        assert(keys[p]@ == key);
        if p < old_keys.len() {
            assert(key_views(old_keys)[p] == key);
            assert(key_views(old_keys).contains(key));
        }
    }
    if reached(es, ks, at, level, key) {
        assert(key_views(old_keys).contains(key));
    }
}

proof fn lemma_settled_reach(
    es: Seq<LinkView>,
    ks: Seq<Seq<char>>,
    at: Timestamp,
    level: nat,
    more: nat,
    key: Seq<char>,
)
    requires
        forall|k: Seq<char>|
            reached(es, ks, at, (level + 1) as nat, k) ==> #[trigger] reached(
                es,
                ks,
                at,
                level,
                k,
            ),
        level <= more,
        reached(es, ks, at, more, key),
    ensures
        reached(es, ks, at, level, key),
    decreases more,
{
    if more > level {
        let fewer = (more - 1) as nat;
        if reached(es, ks, at, fewer, key) {
            lemma_settled_reach(es, ks, at, level, fewer, key);
        } else {
            lemma_step(es, ks, at, fewer, key);
            let j = choose|j: int|
                0 <= j < es.len() && #[trigger] touched(es, ks, at, fewer, j) && (es[j].subject
                    == key || es[j].object == key);
            if reached(es, ks, at, fewer, es[j].subject) {
                lemma_settled_reach(es, ks, at, level, fewer, es[j].subject);
            } else {
                lemma_settled_reach(es, ks, at, level, fewer, es[j].object);
            }
            assert(touched(es, ks, at, level, j));
            lemma_step(es, ks, at, level, key);
        }
    }
}

proof fn lemma_settled_walk(
    first: Option<usize>,
    es: Seq<LinkView>,
    ks: Seq<Seq<char>>,
    at: Timestamp,
    level: nat,
    hops: nat,
    i: int,
)
    requires
        0 < level <= hops,
        first_holds(first, es, ks, at, level, i),
        forall|k: Seq<char>|
            reached(es, ks, at, level, k) ==> #[trigger] reached(
                es,
                ks,
                at,
                (level - 1) as nat,
                k,
            ),
    ensures
        first_holds(first, es, ks, at, hops, i),
{
    let below = (level - 1) as nat;
    if first is None && touched(es, ks, at, (hops - 1) as nat, i) {
        if reached(es, ks, at, (hops - 1) as nat, es[i].subject) {
            lemma_settled_reach(es, ks, at, below, (hops - 1) as nat, es[i].subject);
        } else {
            lemma_settled_reach(es, ks, at, below, (hops - 1) as nat, es[i].object);
        }
        assert(touched(es, ks, at, below, i));
    }
}

/// A memory none of whose edges is touched is not reached.
proof fn lemma_unreached(
    firsts: Seq<Option<usize>>,
    es: Seq<LinkView>,
    ks: Seq<Seq<char>>,
    at: Timestamp,
    hops: nat,
    id: Seq<char>,
)
    requires
        firsts_hold(firsts, es, ks, at, hops),
        forall|i: int|
            0 <= i < es.len() && (#[trigger] es[i]).memory_id == id ==> firsts[i] is None,
    ensures
        distance(es, ks, at, hops, id) is None,
{
    assert forall|j: nat| j < hops implies !#[trigger] memory_touched(es, ks, at, j, id) by {
        if memory_touched(es, ks, at, j, id) {
            let i = choose|i: int|
                0 <= i < es.len() && (#[trigger] es[i]).memory_id == id && touched(
                    es,
                    ks,
                    at,
                    j,
                    i,
                );
            assert(first_holds(firsts[i], es, ks, at, hops, i));
            lemma_touch_grows(es, ks, at, j, (hops - 1) as nat, i);
        }
    }
    lemma_no_distance(es, ks, at, hops, id);
}

proof fn lemma_distance_is(
    es: Seq<LinkView>,
    ks: Seq<Seq<char>>,
    at: Timestamp,
    bound: nat,
    id: Seq<char>,
    k: nat,
)
    requires
        k < bound,
        memory_touched(es, ks, at, k, id),
        forall|j: nat| j < k ==> !#[trigger] memory_touched(es, ks, at, j, id),
    ensures
        distance(es, ks, at, bound, id) == Some(k),
    decreases bound,
{
    if bound - 1 > k {
        lemma_distance_is(es, ks, at, (bound - 1) as nat, id, k);
    } else {
        lemma_no_distance(es, ks, at, k, id);
    }
}

proof fn lemma_no_distance(
    es: Seq<LinkView>,
    ks: Seq<Seq<char>>,
    at: Timestamp,
    bound: nat,
    id: Seq<char>,
)
    requires
        forall|j: nat| j < bound ==> !#[trigger] memory_touched(es, ks, at, j, id),
    ensures
        distance(es, ks, at, bound, id) is None,
    decreases bound,
{
    if bound > 0 {
        lemma_no_distance(es, ks, at, (bound - 1) as nat, id);
        assert(!memory_touched(es, ks, at, (bound - 1) as nat, id));
    }
}

proof fn lemma_distance_touches(
    es: Seq<LinkView>,
    ks: Seq<Seq<char>>,
    at: Timestamp,
    bound: nat,
    id: Seq<char>,
)
    requires
        distance(es, ks, at, bound, id) is Some,
    ensures
        distance(es, ks, at, bound, id)->0 < bound,
        memory_touched(es, ks, at, distance(es, ks, at, bound, id)->0, id),
    decreases bound,
{
    if distance(es, ks, at, (bound - 1) as nat, id) is Some {
        lemma_distance_touches(es, ks, at, (bound - 1) as nat, id);
    }
}

proof fn lemma_distance(
    firsts: Seq<Option<usize>>,
    es: Seq<LinkView>,
    ks: Seq<Seq<char>>,
    at: Timestamp,
    hops: nat,
    id: Seq<char>,
    nearest: usize,
)
    requires
        firsts_hold(firsts, es, ks, at, hops),
        exists|i: int|
            0 <= i < es.len() && es[i].memory_id == id && #[trigger] firsts[i] == Some(nearest),
        forall|i: int|
            0 <= i < es.len() && es[i].memory_id == id && (#[trigger] firsts[i]) is Some ==> nearest
                <= firsts[i]->0,
    ensures
        distance(es, ks, at, hops, id) == Some(nearest as nat),
{
    let w = choose|i: int|
        0 <= i < es.len() && es[i].memory_id == id && #[trigger] firsts[i] == Some(nearest);
    assert(first_holds(firsts[w], es, ks, at, hops, w));
    assert(es[w].memory_id == id && touched(es, ks, at, nearest as nat, w));
    assert forall|j: nat| j < nearest implies !#[trigger] memory_touched(es, ks, at, j, id) by {
        if memory_touched(es, ks, at, j, id) {
            let i = choose|i: int|
                0 <= i < es.len() && (#[trigger] es[i]).memory_id == id && touched(
                    es,
                    ks,
                    at,
                    j,
                    i,
                );
            assert(first_holds(firsts[i], es, ks, at, hops, i));
            match firsts[i] {
                Some(k) => {
                    assert(nearest <= k);
                    lemma_touch_grows(es, ks, at, j, (k - 1) as nat, i);
                },
                None => {
                    lemma_touch_grows(es, ks, at, j, (hops - 1) as nat, i);
                },
            }
        }
    }
    lemma_distance_is(es, ks, at, hops, id, nearest as nat);
}

proof fn lemma_walk(
    found: Seq<Seq<char>>,
    ids: Seq<Seq<char>>,
    keys: Seq<SortKey>,
    order: Seq<usize>,
    firsts: Seq<Option<usize>>,
    es: Seq<LinkView>,
    ks: Seq<Seq<char>>,
    at: Timestamp,
    hops: nat,
    limit: nat,
)
    requires
        firsts_hold(firsts, es, ks, at, hops),
        ids.len() == keys.len() <= usize::MAX,
        forall|j: int| 0 <= j < ids.len() ==> hit_key(es, ks, at, hops, #[trigger] ids[j], keys[j]),
        forall|j: int|
            0 <= j < es.len() && #[trigger] firsts[j] is Some ==> ids.contains(es[j].memory_id),
        is_stable_order(order, keys),
        found.len() == (if order.len() <= limit {
            order.len()
        } else {
            limit
        }),
        forall|j: int| 0 <= j < found.len() ==> #[trigger] found[j] == ids[order[j] as int],
        ids.no_duplicates(),
    ensures
        is_walk(found, es, ks, at, hops, limit),
{
    assert forall|i: int| 0 <= i < found.len() implies distance(
        es,
        ks,
        at,
        hops,
        #[trigger] found[i],
    ) is Some by {
        assert(order[i] < keys.len());
        assert(hit_key(es, ks, at, hops, ids[order[i] as int], keys[order[i] as int]));
    }
    assert forall|i: int, j: int| 0 <= i < j < order.len() implies nearer(
        es,
        ks,
        at,
        hops,
        ids[#[trigger] order[i] as int],
        ids[#[trigger] order[j] as int],
    ) by {
        let (a, b) = (order[i] as int, order[j] as int);
        assert(comes_first(keys, a, b));
        assert(hit_key(es, ks, at, hops, ids[a], keys[a]));
        assert(hit_key(es, ks, at, hops, ids[b], keys[b]));
        assert(ids[a] != ids[b]);
        lemma_ranks_order(es, ids[a], ids[b]);
    }
    assert forall|i: int, j: int| 0 <= i < j < found.len() implies nearer(
        es,
        ks,
        at,
        hops,
        #[trigger] found[i],
        #[trigger] found[j],
    ) by {
        assert(found[i] == ids[order[i] as int] && found[j] == ids[order[j] as int]);
    }
    assert forall|id: Seq<char>|
        (#[trigger] distance(es, ks, at, hops, id)) is Some && !found.contains(
            id,
        ) implies found.len() == limit && forall|i: int|
        0 <= i < found.len() ==> nearer(es, ks, at, hops, #[trigger] found[i], id) by {
        lemma_distance_touches(es, ks, at, hops, id);
        let d = distance(es, ks, at, hops, id)->0;
        let e = choose|i: int|
            0 <= i < es.len() && (#[trigger] es[i]).memory_id == id && touched(es, ks, at, d, i);
        assert(first_holds(firsts[e], es, ks, at, hops, e));
        lemma_touch_grows(es, ks, at, d, (hops - 1) as nat, e);
        assert(firsts[e] is Some);
        let p = choose|p: int| 0 <= p < ids.len() && ids[p] == id;
        crate::order::lemma_arrangement_covers(order, keys.len(), p as usize);
        let q = choose|q: int| 0 <= q < order.len() && order[q] == p as usize;
        if q < found.len() {
            assert(found[q] == id);
        }
        assert forall|i: int| 0 <= i < found.len() implies nearer(
            es,
            ks,
            at,
            hops,
            #[trigger] found[i],
            id,
        ) by {
            assert(found[i] == ids[order[i] as int]);
            assert(nearer(es, ks, at, hops, ids[order[i] as int], ids[order[q] as int]));
        }
    }
}

/// Of two different memories exactly one is nearer.
proof fn lemma_one_is_nearer(
    edges: Seq<LinkView>,
    seeds: Seq<Seq<char>>,
    at: Timestamp,
    hops: nat,
    a: Seq<char>,
    b: Seq<char>,
)
    ensures
        nearer(edges, seeds, at, hops, a, b) ==> a != b && !nearer(edges, seeds, at, hops, b, a),
        a != b ==> nearer(edges, seeds, at, hops, a, b) || nearer(edges, seeds, at, hops, b, a),
{
    text_order_is_total(a, b);
}

/// What a walk answers at one place comes no later than what another answers
/// there, if they agree up to it.
proof fn lemma_no_later(
    a: Seq<Seq<char>>,
    b: Seq<Seq<char>>,
    edges: Seq<LinkView>,
    seeds: Seq<Seq<char>>,
    at: Timestamp,
    hops: nat,
    limit: nat,
    k: int,
)
    requires
        is_walk(a, edges, seeds, at, hops, limit),
        is_walk(b, edges, seeds, at, hops, limit),
        0 <= k < b.len(),
        k <= a.len(),
        forall|i: int| 0 <= i < k ==> #[trigger] a[i] == b[i],
    ensures
        k < a.len(),
        !nearer(edges, seeds, at, hops, b[k], a[k]),
{
    let id = b[k];
    assert(distance(edges, seeds, at, hops, id) is Some);
    if k == a.len() || nearer(edges, seeds, at, hops, id, a[k]) {
        if a.contains(id) {
            let j = choose|j: int| 0 <= j < a.len() && a[j] == id;
            if j < k {
                assert(nearer(edges, seeds, at, hops, b[j], b[k]));
                lemma_one_is_nearer(edges, seeds, at, hops, b[j], b[k]);
            } else {
                lemma_one_is_nearer(edges, seeds, at, hops, id, a[k]);
                if k < j {
                    assert(nearer(edges, seeds, at, hops, a[k], a[j]));
                }
            }
        } else {
            assert(a.len() == limit);
            lemma_one_is_nearer(edges, seeds, at, hops, a[k], id);
        }
    }
}

/// A walk has one answer.
pub proof fn walks_agree(
    a: Seq<Seq<char>>,
    b: Seq<Seq<char>>,
    edges: Seq<LinkView>,
    seeds: Seq<Seq<char>>,
    at: Timestamp,
    hops: nat,
    limit: nat,
)
    requires
        is_walk(a, edges, seeds, at, hops, limit),
        is_walk(b, edges, seeds, at, hops, limit),
    ensures
        a == b,
{
    lemma_walks_agree_below(a, b, edges, seeds, at, hops, limit, a.len());
    if a.len() < b.len() {
        lemma_no_later(a, b, edges, seeds, at, hops, limit, a.len() as int);
    }
    assert(a =~= b);
}

proof fn lemma_walks_agree_below(
    a: Seq<Seq<char>>,
    b: Seq<Seq<char>>,
    edges: Seq<LinkView>,
    seeds: Seq<Seq<char>>,
    at: Timestamp,
    hops: nat,
    limit: nat,
    n: nat,
)
    requires
        is_walk(a, edges, seeds, at, hops, limit),
        is_walk(b, edges, seeds, at, hops, limit),
        n <= a.len(),
    ensures
        n <= b.len(),
        forall|i: int| 0 <= i < n ==> #[trigger] a[i] == b[i],
    decreases n,
{
    if n > 0 {
        let k = n - 1;
        lemma_walks_agree_below(a, b, edges, seeds, at, hops, limit, k as nat);
        lemma_no_later(b, a, edges, seeds, at, hops, limit, k);
        lemma_no_later(a, b, edges, seeds, at, hops, limit, k);
        lemma_one_is_nearer(edges, seeds, at, hops, a[k], b[k]);
    }
}

/// Without seeds a walk reaches nothing.
pub proof fn no_seeds_no_walk(
    found: Seq<Seq<char>>,
    edges: Seq<LinkView>,
    at: Timestamp,
    hops: nat,
    limit: nat,
)
    requires
        is_walk(found, edges, Seq::empty(), at, hops, limit),
    ensures
        found.len() == 0,
{
    if found.len() > 0 {
        let id = found[0];
        assert(distance(edges, Seq::empty(), at, hops, id) is Some);
        lemma_distance_touches(edges, Seq::empty(), at, hops, id);
        let d = distance(edges, Seq::empty(), at, hops, id)->0;
        let i = choose|i: int|
            0 <= i < edges.len() && (#[trigger] edges[i]).memory_id == id && touched(
                edges,
                Seq::empty(),
                at,
                d,
                i,
            );
        lemma_nothing_reached(edges, at, d, edges[i].subject);
        lemma_nothing_reached(edges, at, d, edges[i].object);
    }
}

proof fn lemma_nothing_reached(edges: Seq<LinkView>, at: Timestamp, steps: nat, key: Seq<char>)
    ensures
        !reached(edges, Seq::empty(), at, steps, key),
    decreases steps,
{
    if steps > 0 {
        let fewer = (steps - 1) as nat;
        lemma_nothing_reached(edges, at, fewer, key);
        assert forall|i: int| 0 <= i < edges.len() implies !reached(
            edges,
            Seq::empty(),
            at,
            fewer,
            (#[trigger] edges[i]).object,
        ) && !reached(edges, Seq::empty(), at, fewer, edges[i].subject) by {
            lemma_nothing_reached(edges, at, fewer, edges[i].object);
            lemma_nothing_reached(edges, at, fewer, edges[i].subject);
        }
    }
}

/// A path: keys one after the other, from a seed on, each two of them the ends of
/// an edge that holds.
pub open spec fn is_path(
    path: Seq<Seq<char>>,
    edges: Seq<LinkView>,
    seeds: Seq<Seq<char>>,
    at: Timestamp,
) -> bool {
    &&& path.len() > 0
    &&& path[0].len() > 0 && seeds.contains(path[0])
    &&& forall|i: int|
        0 <= i < path.len() - 1 ==> are_linked(#[trigger] path[i], path[i + 1], edges, at)
}

/// Whether an edge that holds has these two ends, either way round.
pub open spec fn are_linked(
    a: Seq<char>,
    b: Seq<char>,
    edges: Seq<LinkView>,
    at: Timestamp,
) -> bool {
    exists|e: int|
        0 <= e < edges.len() && (#[trigger] edges[e]).live_at(at) && ((edges[e].subject == a
            && edges[e].object == b) || (edges[e].subject == b && edges[e].object == a))
}

/// Whether a path of at most so many edges ends at a key.
pub open spec fn is_linked_up(
    edges: Seq<LinkView>,
    seeds: Seq<Seq<char>>,
    at: Timestamp,
    steps: nat,
    key: Seq<char>,
) -> bool {
    exists|path: Seq<Seq<char>>|
        #[trigger] is_path(path, edges, seeds, at) && path.last() == key && path.len() <= steps + 1
}

/// A walk reaches a key within so many steps if and only if a path of so many
/// edges that hold leads from a seed to it, each crossed either way.
pub proof fn walks_go_along_paths(
    edges: Seq<LinkView>,
    seeds: Seq<Seq<char>>,
    at: Timestamp,
    steps: nat,
    key: Seq<char>,
)
    ensures
        reached(edges, seeds, at, steps, key) <==> is_linked_up(edges, seeds, at, steps, key),
{
    if reached(edges, seeds, at, steps, key) {
        lemma_reach_has_path(edges, seeds, at, steps, key);
    }
    if is_linked_up(edges, seeds, at, steps, key) {
        let path = choose|path: Seq<Seq<char>>|
            #[trigger] is_path(path, edges, seeds, at) && path.last() == key && path.len() <= steps
                + 1;
        lemma_path_reaches(path, edges, seeds, at);
        walks_grow(edges, seeds, at, (path.len() - 1) as nat, steps, key);
    }
}

proof fn lemma_reach_has_path(
    edges: Seq<LinkView>,
    seeds: Seq<Seq<char>>,
    at: Timestamp,
    steps: nat,
    key: Seq<char>,
)
    requires
        reached(edges, seeds, at, steps, key),
    ensures
        is_linked_up(edges, seeds, at, steps, key),
    decreases steps,
{
    if steps == 0 {
        let path = seq![key];
        assert(is_path(path, edges, seeds, at));
    } else if reached(edges, seeds, at, (steps - 1) as nat, key) {
        lemma_reach_has_path(edges, seeds, at, (steps - 1) as nat, key);
        let path = choose|path: Seq<Seq<char>>|
            #[trigger] is_path(path, edges, seeds, at) && path.last() == key && path.len() <= steps;
        assert(is_path(path, edges, seeds, at));
    } else {
        let fewer = (steps - 1) as nat;
        let e = choose|e: int|
            0 <= e < edges.len() && (#[trigger] edges[e]).live_at(at) && ((edges[e].subject == key
                && reached(edges, seeds, at, fewer, edges[e].object)) || (edges[e].object == key
                && reached(edges, seeds, at, fewer, edges[e].subject)));
        let other = if edges[e].subject == key && reached(
            edges,
            seeds,
            at,
            fewer,
            edges[e].object,
        ) {
            edges[e].object
        } else {
            edges[e].subject
        };
        lemma_reach_has_path(edges, seeds, at, fewer, other);
        let path = choose|path: Seq<Seq<char>>|
            #[trigger] is_path(path, edges, seeds, at) && path.last() == other && path.len()
                <= fewer + 1;
        let longer = path.push(key);
        assert(edges[e].live_at(at));
        assert(are_linked(other, key, edges, at));
        assert forall|i: int| 0 <= i < longer.len() - 1 implies are_linked(
            #[trigger] longer[i],
            longer[i + 1],
            edges,
            at,
        ) by {
            if i < path.len() - 1 {
                assert(longer[i] == path[i] && longer[i + 1] == path[i + 1]);
            } else {
                assert(longer[i] == other && longer[i + 1] == key);
            }
        }
        assert(longer[0] == path[0]);
        assert(is_path(longer, edges, seeds, at));
    }
}

proof fn lemma_path_reaches(
    path: Seq<Seq<char>>,
    edges: Seq<LinkView>,
    seeds: Seq<Seq<char>>,
    at: Timestamp,
)
    requires
        is_path(path, edges, seeds, at),
    ensures
        reached(edges, seeds, at, (path.len() - 1) as nat, path.last()),
    decreases path.len(),
{
    if path.len() > 1 {
        let shorter = path.drop_last();
        assert forall|i: int| 0 <= i < shorter.len() - 1 implies are_linked(
            #[trigger] shorter[i],
            shorter[i + 1],
            edges,
            at,
        ) by {
            assert(shorter[i] == path[i] && shorter[i + 1] == path[i + 1]);
        }
        assert(shorter[0] == path[0]);
        lemma_path_reaches(shorter, edges, seeds, at);
        let n = path.len() - 2;
        assert(are_linked(path[n], path[n + 1], edges, at));
        assert(shorter.last() == path[n] && path.last() == path[n + 1]);
        let e = choose|e: int|
            0 <= e < edges.len() && (#[trigger] edges[e]).live_at(at) && ((edges[e].subject
                == path[n] && edges[e].object == path[n + 1]) || (edges[e].subject == path[n + 1]
                && edges[e].object == path[n]));
        assert(edges[e].live_at(at));
    }
}

/// A memory is as far away as the nearest end of any of its edges that hold: the
/// first number of steps at which it is touched, if there is one below the
/// bound.
pub proof fn distances_are_least(
    edges: Seq<LinkView>,
    seeds: Seq<Seq<char>>,
    at: Timestamp,
    bound: nat,
    id: Seq<char>,
)
    ensures
        match distance(edges, seeds, at, bound, id) {
            Some(d) => d < bound && memory_touched(edges, seeds, at, d, id) && forall|k: nat|
                k < d ==> !#[trigger] memory_touched(edges, seeds, at, k, id),
            None => forall|k: nat|
                k < bound ==> !#[trigger] memory_touched(edges, seeds, at, k, id),
        },
    decreases bound,
{
    if bound > 0 {
        distances_are_least(edges, seeds, at, (bound - 1) as nat, id);
    }
}

/// A memory is touched within so many steps if one of its edges holds and the
/// walk reaches either end.
pub proof fn memories_are_touched_by_their_edges(
    edges: Seq<LinkView>,
    seeds: Seq<Seq<char>>,
    at: Timestamp,
    steps: nat,
    id: Seq<char>,
)
    ensures
        memory_touched(edges, seeds, at, steps, id) <==> exists|i: int|
            0 <= i < edges.len() && (#[trigger] edges[i]).memory_id == id && edges[i].live_at(at)
                && (is_linked_up(edges, seeds, at, steps, edges[i].subject) || is_linked_up(
                edges,
                seeds,
                at,
                steps,
                edges[i].object,
            )),
{
    assert forall|i: int| 0 <= i < edges.len() implies (touched(edges, seeds, at, steps, i) <==> (
    #[trigger] edges[i]).live_at(at) && (is_linked_up(edges, seeds, at, steps, edges[i].subject)
        || is_linked_up(edges, seeds, at, steps, edges[i].object))) by {
        walks_go_along_paths(edges, seeds, at, steps, edges[i].subject);
        walks_go_along_paths(edges, seeds, at, steps, edges[i].object);
    }
}

/// A walk answers the memories that it touches within its hops, all of them
/// unless it is full, and no others.
pub proof fn walks_answer_what_they_touch(
    found: Seq<Seq<char>>,
    edges: Seq<LinkView>,
    seeds: Seq<Seq<char>>,
    at: Timestamp,
    hops: nat,
    limit: nat,
    id: Seq<char>,
)
    requires
        is_walk(found, edges, seeds, at, hops, limit),
    ensures
        found.len() <= limit,
        found.no_duplicates(),
        found.contains(id) ==> exists|k: nat|
            k < hops && #[trigger] memory_touched(edges, seeds, at, k, id),
        found.len() < limit && (exists|k: nat|
            k < hops && #[trigger] memory_touched(edges, seeds, at, k, id)) ==> found.contains(id),
{
    distances_are_least(edges, seeds, at, hops, id);
    assert forall|i: int, j: int| 0 <= i < j < found.len() implies found[i] != found[j] by {
        assert(nearer(edges, seeds, at, hops, found[i], found[j]));
        lemma_one_is_nearer(edges, seeds, at, hops, found[i], found[j]);
    }
    if found.contains(id) {
        let i = choose|i: int| 0 <= i < found.len() && found[i] == id;
        assert(distance(edges, seeds, at, hops, found[i]) is Some);
    }
}

/// The nearer memory comes first; of those at one distance the one that more of
/// the seeds reach; of those the one with the lesser name.
pub proof fn walks_answer_the_nearest_first(
    found: Seq<Seq<char>>,
    edges: Seq<LinkView>,
    seeds: Seq<Seq<char>>,
    at: Timestamp,
    hops: nat,
    limit: nat,
    i: int,
    j: int,
)
    requires
        is_walk(found, edges, seeds, at, hops, limit),
        0 <= i < j < found.len(),
    ensures
        ({
            let (a, b) = (found[i], found[j]);
            let (near, far) = (
                distance(edges, seeds, at, hops, a)->0,
                distance(edges, seeds, at, hops, b)->0,
            );
            let starts = distinct_keys(seeds);
            let more = starts.filter(
                |k: Seq<char>| distance(edges, seq![k], at, hops, a) is Some,
            ).len();
            let fewer = starts.filter(
                |k: Seq<char>| distance(edges, seq![k], at, hops, b) is Some,
            ).len();
            ||| near < far
            ||| near == far && more > fewer
            ||| near == far && more == fewer && text_before(a, b)
        }),
{
    assert(nearer(edges, seeds, at, hops, found[i], found[j]));
    lemma_reaching_counts(edges, distinct_keys(seeds), at, hops, found[i]);
    lemma_reaching_counts(edges, distinct_keys(seeds), at, hops, found[j]);
}

proof fn lemma_reaching_counts(
    edges: Seq<LinkView>,
    keys: Seq<Seq<char>>,
    at: Timestamp,
    hops: nat,
    id: Seq<char>,
)
    ensures
        reaching(edges, keys, at, hops, id) == keys.filter(
            |k: Seq<char>| distance(edges, seq![k], at, hops, id) is Some,
        ).len(),
    decreases keys.len(),
{
    reveal(Seq::filter);
    if keys.len() > 0 {
        lemma_reaching_counts(edges, keys.drop_last(), at, hops, id);
    }
}

/// An edge holds at a time if it began by then and has not ended.
pub proof fn links_hold_in_their_interval(
    link: LinkView,
    at: Timestamp,
    from: Timestamp,
    end: Timestamp,
    raw: Seq<char>,
)
    ensures
        link.valid_from == StampView::At(from) && link.invalid_at is None ==> (link.live_at(at)
            <==> !at.before(from)),
        link.valid_from == StampView::At(from) && link.invalid_at == Some(StampView::At(end)) ==> (
        link.live_at(at) <==> !at.before(from) && at.before(end)),
        link.valid_from == StampView::Text(raw) && link.invalid_at is None ==> (link.live_at(at)
            <==> !text_before(at.text(), raw)),
        link.valid_from == StampView::At(from) && link.invalid_at == Some(StampView::Text(raw))
            ==> (link.live_at(at) <==> !at.before(from) && text_before(at.text(), raw)),
{
}

/// A walk sees the graph as it was at the time that is asked for, and as it is
/// now where none is.
pub proof fn walks_are_dated(as_of: Timestamp, now: Timestamp)
    ensures
        walked_at(Some(as_of), now) == as_of,
        walked_at(None, now) == now,
{
}

/// A row is read as the edge that its columns name: between the same two
/// entities, of the same memory, with the points in time that the columns
/// denote. A column that denotes none is kept as it is.
pub proof fn rows_are_read_as_their_edges(
    memory_id: Seq<char>,
    subject: Seq<char>,
    object: Seq<char>,
    valid_from: Seq<char>,
    invalid_at: Option<Seq<char>>,
    time: Timestamp,
)
    ensures
        ({
            let link = stored_link(memory_id, subject, object, valid_from, invalid_at);
            &&& link.memory_id == memory_id
            &&& link.subject == subject
            &&& link.object == object
            &&& rfc3339_instant(valid_from) == Some(time.parts()) ==> link.valid_from
                == StampView::At(time)
            &&& rfc3339_instant(valid_from) is None ==> link.valid_from == StampView::Text(
                valid_from,
            )
            &&& invalid_at is None <==> link.invalid_at is None
            &&& invalid_at is Some && rfc3339_instant(invalid_at->0) == Some(time.parts())
                ==> link.invalid_at == Some(StampView::At(time))
            &&& invalid_at is Some && rfc3339_instant(invalid_at->0) is None ==> link.invalid_at
                == Some(StampView::Text(invalid_at->0))
        }),
{
    crate::shared::time::instants_are_their_parts(time, time);
}

/// Names are read as the identifiers that they are, each at its place; one that
/// is none has the whole list refused.
pub proof fn names_are_read_in_order(found: Result<Vec<MemoryId>>, names: Seq<Seq<char>>, i: int)
    requires
        are_read(found, names),
        0 <= i < names.len(),
    ensures
        uuid_of_text(names[i]) is None ==> found is Err,
        found matches Ok(ids) ==> ids@.len() == names.len() && uuid_of_text(names[i]) == Some(
            ids@[i].value,
        ),
        found is Err ==> exists|k: int|
            0 <= k < names.len() && uuid_of_text(#[trigger] names[k]) is None,
{
}

} // verus!
