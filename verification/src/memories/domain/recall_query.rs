//! What a caller is asking for.
use super::category::{Category, CategoryView};
use crate::shared::error::{RaError, Result};
use crate::shared::time::Timestamp;
use crate::text::{decimal, decimal_text, fold, folded, texts, trim, trimmed};
use vstd::prelude::*;
use vstd::string::StrSliceExecFns;
use vstd::string::StringExecFns;

verus! {

/// Hard ceiling on the limit: results go into an agent's context window.
pub const MAX_LIMIT: usize = 50;

pub const MAX_QUERY_LEN: usize = 1_000;

#[derive(Debug, PartialEq)]
pub struct RecallQuery {
    text: String,
    categories: Vec<Category>,
    subcategories: Vec<String>,
    tags: Vec<String>,
    since: Option<Timestamp>,
    as_of: Option<Timestamp>,
    limit: usize,
    include_superseded: bool,
}

/// A query as a value of its own.
#[verifier::ext_equal]
pub struct QueryView {
    pub text: Seq<char>,
    /// Any one of these will do; none given, any at all.
    pub categories: Seq<CategoryView>,
    /// Any one of these will do; none given, any at all.
    pub subcategories: Seq<Seq<char>>,
    /// All of these are wanted.
    pub tags: Seq<Seq<char>>,
    pub since: Option<Timestamp>,
    /// The point in time at which the graph is read; now, if none is given.
    pub as_of: Option<Timestamp>,
    pub limit: nat,
    pub include_superseded: bool,
}

pub open spec fn category_views(list: Seq<Category>) -> Seq<CategoryView> {
    list.map_values(|c: Category| c@)
}

impl View for RecallQuery {
    type V = QueryView;

    closed spec fn view(&self) -> QueryView {
        QueryView {
            text: self.text@,
            categories: category_views(self.categories@),
            subcategories: texts(self.subcategories@),
            tags: texts(self.tags@),
            since: self.since,
            as_of: self.as_of,
            limit: self.limit as nat,
            include_superseded: self.include_superseded,
        }
    }
}

/// Why a query is refused, if it is.
pub open spec fn query_complaint(text: Seq<char>, limit: nat) -> Option<Seq<char>> {
    if trimmed(text).len() == 0 {
        Some("query is empty"@)
    } else if trimmed(text).len() > MAX_QUERY_LEN {
        Some("query is longer than "@ + decimal(MAX_QUERY_LEN as nat) + " characters"@)
    } else if limit == 0 {
        Some("limit is 0"@)
    } else {
        None
    }
}

/// The folded texts of a list that are not blank, in order.
pub open spec fn folded_filters(list: Seq<Seq<char>>) -> Seq<Seq<char>>
    decreases list.len(),
{
    if list.len() == 0 {
        Seq::empty()
    } else {
        let earlier = folded_filters(list.drop_last());
        let filter = folded(list.last());
        if filter.len() == 0 {
            earlier
        } else {
            earlier.push(filter)
        }
    }
}

fn fold_filters(list: &Vec<String>) -> (filters: Vec<String>)
    ensures
        texts(filters@) == folded_filters(texts(list@)),
{
    let mut filters: Vec<String> = Vec::new();
    let mut i: usize = 0;
    assert(texts(list@).take(0) =~= Seq::empty());
    assert(texts(filters@) =~= Seq::empty());
    while i < list.len()
        invariant
            0 <= i <= list@.len(),
            texts(filters@) == folded_filters(texts(list@).take(i as int)),
        decreases list@.len() - i,
    {
        let filter = fold(list[i].as_str());
        proof {
            assert(texts(list@).take(i + 1).drop_last() =~= texts(list@).take(i as int));
            assert(texts(list@).take(i + 1).last() == list@[i as int]@);
        }
        if !filter.as_str().is_empty() {
            let ghost before = filters@;
            let ghost added = filter@;
            filters.push(filter);
            assert(texts(filters@) =~= texts(before).push(added));
        }
        i += 1;
    }
    assert(texts(list@).take(list@.len() as int) =~= texts(list@));
    filters
}

impl QueryView {
    /// How many candidates each leg fetches: eight per wanted result, within
    /// bounds.
    pub open spec fn depth(self) -> nat {
        if self.limit * 8 < 40 {
            40
        } else if self.limit * 8 > 200 {
            200
        } else {
            self.limit * 8
        }
    }
}

impl RecallQuery {
    #[verifier::type_invariant]
    closed spec fn well_formed(self) -> bool {
        1 <= self.limit <= MAX_LIMIT
    }

    /// A query for at most `limit` memories. A limit beyond the ceiling is
    /// brought down to it: whoever asks for 200 wants as many as there are.
    pub fn new(text: &str, limit: usize) -> (query: Result<RecallQuery>)
        ensures
            match query {
                Ok(q) => query_complaint(text@, limit as nat) is None && q@ == (QueryView {
                    text: trimmed(text@),
                    categories: Seq::empty(),
                    subcategories: Seq::empty(),
                    tags: Seq::empty(),
                    since: None,
                    as_of: None,
                    limit: if limit <= MAX_LIMIT {
                        limit as nat
                    } else {
                        MAX_LIMIT as nat
                    },
                    include_superseded: false,
                }),
                Err(e) => e is Validation && query_complaint(text@, limit as nat) == Some(
                    e.text(),
                ),
            },
    {
        let kept = trim(text);
        if kept.as_str().is_empty() {
            return Err(RaError::Validation("query is empty".to_owned()));
        }
        if kept.as_str().unicode_len() > MAX_QUERY_LEN {
            let mut sentence = "query is longer than ".to_owned();
            sentence.append(decimal_text(MAX_QUERY_LEN as u64).as_str());
            sentence.append(" characters");
            return Err(RaError::Validation(sentence));
        }
        if limit == 0 {
            return Err(RaError::Validation("limit is 0".to_owned()));
        }
        let query = RecallQuery {
            text: kept,
            categories: Vec::new(),
            subcategories: Vec::new(),
            tags: Vec::new(),
            since: None,
            as_of: None,
            limit: if limit <= MAX_LIMIT {
                limit
            } else {
                MAX_LIMIT
            },
            include_superseded: false,
        };
        proof {
            assert(query@.categories =~= Seq::empty());
            assert(query@.subcategories =~= Seq::empty());
            assert(query@.tags =~= Seq::empty());
        }
        Ok(query)
    }

    pub fn with_categories(self, categories: Vec<Category>) -> (query: RecallQuery)
        ensures
            query@ == (QueryView { categories: category_views(categories@), ..self@ }),
    {
        proof {
            use_type_invariant(&self);
        }
        let mut query = self;
        query.categories = categories;
        query
    }

    /// A memory must carry every one of the tags: filters narrow.
    pub fn with_tags(self, tags: Vec<String>) -> (query: RecallQuery)
        ensures
            query@ == (QueryView { tags: folded_filters(texts(tags@)), ..self@ }),
    {
        proof {
            use_type_invariant(&self);
        }
        let filters = fold_filters(&tags);
        let mut query = self;
        query.tags = filters;
        query
    }

    /// A memory may carry any one of the subcategories.
    pub fn with_subcategories(self, subcategories: Vec<String>) -> (query: RecallQuery)
        ensures
            query@ == (QueryView {
                subcategories: folded_filters(texts(subcategories@)),
                ..self@
            }),
    {
        proof {
            use_type_invariant(&self);
        }
        let filters = fold_filters(&subcategories);
        let mut query = self;
        query.subcategories = filters;
        query
    }

    pub fn with_since(self, since: Option<Timestamp>) -> (query: RecallQuery)
        ensures
            query@ == (QueryView { since, ..self@ }),
    {
        proof {
            use_type_invariant(&self);
        }
        let mut query = self;
        query.since = since;
        query
    }

    /// Reads the graph as it stood at a point in time.
    pub fn with_as_of(self, as_of: Option<Timestamp>) -> (query: RecallQuery)
        ensures
            query@ == (QueryView { as_of, ..self@ }),
    {
        proof {
            use_type_invariant(&self);
        }
        let mut query = self;
        query.as_of = as_of;
        query
    }

    pub fn including_superseded(self) -> (query: RecallQuery)
        ensures
            query@ == (QueryView { include_superseded: true, ..self@ }),
    {
        proof {
            use_type_invariant(&self);
        }
        let mut query = self;
        query.include_superseded = true;
        query
    }

    pub fn text(&self) -> (text: &str)
        ensures
            text@ == self@.text,
    {
        self.text.as_str()
    }

    pub fn categories(&self) -> (categories: &Vec<Category>)
        ensures
            category_views(categories@) == self@.categories,
    {
        &self.categories
    }

    pub fn tags(&self) -> (tags: &Vec<String>)
        ensures
            texts(tags@) == self@.tags,
    {
        &self.tags
    }

    pub fn subcategories(&self) -> (subcategories: &Vec<String>)
        ensures
            texts(subcategories@) == self@.subcategories,
    {
        &self.subcategories
    }

    pub fn since(&self) -> (since: Option<Timestamp>)
        ensures
            since == self@.since,
    {
        self.since
    }

    pub fn as_of(&self) -> (as_of: Option<Timestamp>)
        ensures
            as_of == self@.as_of,
    {
        self.as_of
    }

    pub fn limit(&self) -> (limit: usize)
        ensures
            limit == self@.limit,
            1 <= limit <= MAX_LIMIT,
    {
        proof {
            use_type_invariant(self);
        }
        self.limit
    }

    pub fn include_superseded(&self) -> (included: bool)
        ensures
            included == self@.include_superseded,
    {
        self.include_superseded
    }

    /// How many candidates each leg should fetch.
    ///
    /// Wider than the limit on purpose: fusion and filtering both discard
    /// candidates. The floor is what keeps a filtered recall honest, since a
    /// selective filter can discard nearly the whole window.
    pub fn candidate_depth(&self) -> (depth: usize)
        ensures
            depth == self@.depth(),
            self@.limit <= depth,
            40 <= depth <= 200,
    {
        proof {
            use_type_invariant(self);
        }
        let wanted: usize = self.limit * 8;
        if wanted < 40 {
            40
        } else if wanted > 200 {
            200
        } else {
            wanted
        }
    }
}

/// Folding the filters again changes nothing.
pub proof fn folding_filters_is_idempotent(list: Seq<Seq<char>>)
    ensures
        folded_filters(folded_filters(list)) == folded_filters(list),
    decreases list.len(),
{
    if list.len() > 0 {
        folding_filters_is_idempotent(list.drop_last());
        crate::text::folding_is_idempotent(list.last());
        let earlier = folded_filters(list.drop_last());
        let filter = folded(list.last());
        if filter.len() > 0 {
            assert(earlier.push(filter).drop_last() =~= earlier);
        }
    }
}

/// Asking for more never fetches fewer candidates.
pub proof fn depth_grows_with_the_limit(a: QueryView, b: QueryView)
    requires
        a.limit <= b.limit,
    ensures
        a.depth() <= b.depth(),
        40 <= a.depth() <= 200,
{
}

/// The filters are the folded texts of the list, in order, blanks left out.
pub proof fn filters_are_what_was_given(list: Seq<Seq<char>>, filter: Seq<char>)
    ensures
        folded_filters(list) == list.map_values(|t: Seq<char>| folded(t)).filter(
            |t: Seq<char>| t.len() > 0,
        ),
        folded_filters(list).contains(filter) <==> filter.len() > 0 && exists|i: int|
            0 <= i < list.len() && folded(#[trigger] list[i]) == filter,
    decreases list.len(),
{
    reveal(Seq::filter);
    let f = |t: Seq<char>| folded(t);
    let all = folded_filters(list);
    if list.len() > 0 {
        let shorter = list.drop_last();
        let earlier = folded_filters(shorter);
        filters_are_what_was_given(shorter, filter);
        assert(list.map_values(f).drop_last() =~= shorter.map_values(f));
        assert(list.map_values(f).last() == folded(list.last()));
        let last = folded(list.last());
        if exists|i: int| 0 <= i < list.len() && folded(#[trigger] list[i]) == filter {
            let i = choose|i: int| 0 <= i < list.len() && folded(#[trigger] list[i]) == filter;
            if i < shorter.len() {
                assert(folded(shorter[i]) == filter);
                if filter.len() > 0 {
                    let k = choose|k: int| 0 <= k < earlier.len() && earlier[k] == filter;
                    assert(all[k] == filter);
                }
            } else if filter.len() > 0 {
                assert(all[all.len() - 1] == filter);
            }
        }
        if all.contains(filter) {
            let k = choose|k: int| 0 <= k < all.len() && all[k] == filter;
            if k < earlier.len() {
                assert(earlier[k] == filter);
                let i = choose|i: int|
                    0 <= i < shorter.len() && folded(#[trigger] shorter[i]) == filter;
                assert(folded(list[i]) == filter);
            } else {
                assert(folded(list[list.len() - 1]) == filter);
            }
        }
    } else {
        assert(list.map_values(f) =~= Seq::empty());
    }
}

/// A query is accepted if it says something, not too much, and asks for
/// something.
pub proof fn queries_are_accepted_by_length_and_limit(text: Seq<char>, limit: nat)
    ensures
        query_complaint(text, limit) is None <==> 0 < trimmed(text).len() <= 1_000 && limit > 0,
        trimmed(text).len() == 0 ==> query_complaint(text, limit) == Some("query is empty"@),
        trimmed(text).len() > 1_000 ==> query_complaint(text, limit) == Some(
            "query is longer than "@ + decimal(1_000) + " characters"@,
        ),
        0 < trimmed(text).len() <= 1_000 && limit == 0 ==> query_complaint(text, limit) == Some(
            "limit is 0"@,
        ),
{
}

/// Each leg fetches eight candidates for a result, but no fewer than forty and
/// no more than two hundred; never fewer than are asked for.
pub proof fn depths_are_eight_to_one(query: QueryView)
    requires
        query.limit <= MAX_LIMIT,
    ensures
        query.limit <= 5 ==> query.depth() == 40,
        5 <= query.limit <= 25 ==> query.depth() == 8 * query.limit,
        query.limit >= 25 ==> query.depth() == 200,
        query.limit <= query.depth(),
{
}

} // verus!
