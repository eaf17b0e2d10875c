//! Vectors in a provider's answer, and what the providers have in common.
use crate::json::{
    double_in, json_tree, json_trees, list_in, value_double, value_items, JsonTree,
};
use crate::providers::infrastructure::chat::transport::{summarise, summary};
use crate::shared::error::RaError;
use crate::text::{decimal, decimal_text};
use vstd::prelude::*;
use vstd::string::StringExecFns;

verus! {

/// How much of a body is repeated.
pub const SUMMARY_LIMIT: usize = 300;

/// What is embedded to learn how wide a model's vectors are.
pub const PROBE: &'static str = "dimension probe";

/// Why a document is not a vector.
#[derive(Debug, Clone, Copy, PartialEq, Eq, Structural)]
pub enum Fault {
    /// It is not a list.
    NoList,
    /// It is a list with something else than numbers in it.
    NoNumber,
}

/// The numbers of a list.
pub open spec fn doubles(items: Seq<JsonTree>) -> Seq<u64> {
    items.map_values(|t: JsonTree| double_in(Some(t))->0)
}

/// Whether a list holds numbers only.
pub open spec fn all_numbers(items: Seq<JsonTree>) -> bool {
    forall|i: int| 0 <= i < items.len() ==> double_in(Some(#[trigger] items[i])) is Some
}

/// What is wrong with a document as a vector, if something is.
pub open spec fn fault_of(tree: Option<JsonTree>) -> Option<Fault> {
    match list_in(tree) {
        None => Some(Fault::NoList),
        Some(items) => if all_numbers(items) {
            None
        } else {
            Some(Fault::NoNumber)
        },
    }
}

/// The vector that a document is.
pub open spec fn vector_of(tree: Option<JsonTree>) -> Seq<u64> {
    doubles(list_in(tree)->0)
}

/// What is wrong with the first document that is not a vector, if one is not.
pub open spec fn first_fault(trees: Seq<Option<JsonTree>>) -> Option<Fault>
    decreases trees.len(),
{
    if trees.len() == 0 {
        None
    } else {
        match first_fault(trees.drop_last()) {
            Some(fault) => Some(fault),
            None => fault_of(trees.last()),
        }
    }
}

/// The documents behind optional values.
pub open spec fn optional_trees(values: Seq<Option<&serde_json::Value>>) -> Seq<Option<JsonTree>> {
    values.map_values(|v: Option<&serde_json::Value>| optional_tree(v))
}

pub open spec fn optional_tree(value: Option<&serde_json::Value>) -> Option<JsonTree> {
    match value {
        Some(v) => Some(json_tree(*v)),
        None => None,
    }
}

/// The vectors of a list.
pub open spec fn vector_views(list: Seq<Vec<u64>>) -> Seq<Seq<u64>> {
    list.map_values(|v: Vec<u64>| v@)
}

pub fn read_vector(value: Option<&serde_json::Value>) -> (vector: Result<Vec<u64>, Fault>)
    ensures
        match vector {
            Ok(v) => fault_of(optional_tree(value)) is None && v@ == vector_of(
                optional_tree(value),
            ),
            Err(fault) => fault_of(optional_tree(value)) == Some(fault),
        },
{
    let items = match value {
        Some(v) => match value_items(v) {
            Some(items) => items,
            None => return Err(Fault::NoList),
        },
        None => return Err(Fault::NoList),
    };
    let ghost trees = json_trees(items@);
    let mut vector: Vec<u64> = Vec::new();
    let mut i: usize = 0;
    while i < items.len()
        invariant
            0 <= i <= items@.len(),
            trees == json_trees(items@),
            list_in(optional_tree(value)) == Some(trees),
            vector@.len() == i,
            forall|j: int| 0 <= j < i ==> double_in(Some(#[trigger] trees[j])) == Some(vector@[j]),
        decreases items@.len() - i,
    {
        assert(trees[i as int] == json_tree(items@[i as int]));
        match value_double(&items[i]) {
            Some(bits) => vector.push(bits),
            None => {
                assert(double_in(Some(trees[i as int])) is None);
                return Err(Fault::NoNumber);
            },
        }
        i += 1;
    }
    assert(vector@ =~= doubles(trees));
    Ok(vector)
}

/// The vectors of a list of documents; the first that is none is the fault.
pub fn read_vectors(values: &Vec<Option<&serde_json::Value>>) -> (vectors: Result<
    Vec<Vec<u64>>,
    Fault,
>)
    ensures
        match vectors {
            Ok(list) => first_fault(optional_trees(values@)) is None && list@.len() == values@.len()
                && forall|i: int|
                0 <= i < list@.len() ==> (#[trigger] list@[i])@ == vector_of(
                    optional_trees(values@)[i],
                ),
            Err(fault) => first_fault(optional_trees(values@)) == Some(fault),
        },
{
    let ghost trees = optional_trees(values@);
    let mut list: Vec<Vec<u64>> = Vec::new();
    let mut i: usize = 0;
    assert(trees.take(0) =~= Seq::empty());
    while i < values.len()
        invariant
            0 <= i <= values@.len(),
            trees == optional_trees(values@),
            list@.len() == i,
            first_fault(trees.take(i as int)) is None,
            forall|j: int| 0 <= j < i ==> (#[trigger] list@[j])@ == vector_of(trees[j]),
        decreases values@.len() - i,
    {
        proof {
            assert(trees.take(i + 1).drop_last() =~= trees.take(i as int));
            assert(trees.take(i + 1).last() == optional_tree(values@[i as int]));
        }
        match read_vector(values[i]) {
            Ok(vector) => list.push(vector),
            Err(fault) => {
                proof {
                    lemma_fault_stays(trees, i + 1);
                }
                return Err(fault);
            },
        }
        i += 1;
    }
    assert(trees.take(trees.len() as int) =~= trees);
    Ok(list)
}

proof fn lemma_fault_stays(trees: Seq<Option<JsonTree>>, n: int)
    requires
        0 <= n <= trees.len(),
        first_fault(trees.take(n)) is Some,
    ensures
        first_fault(trees) == first_fault(trees.take(n)),
    decreases trees.len(),
{
    if n == trees.len() {
        assert(trees.take(n) =~= trees);
    } else {
        assert(trees.drop_last().take(n) =~= trees.take(n));
        lemma_fault_stays(trees.drop_last(), n);
    }
}

/// What an answer that is not a success comes to: busy is a failure that may
/// pass, anything else is a mistake in the configuration.
pub open spec fn is_provider_refusal(
    who: Seq<char>,
    status: u16,
    body: Seq<char>,
    error: RaError,
) -> bool {
    &&& (500 <= status < 600 || status == 429) ==> error is Internal
    &&& !(500 <= status < 600 || status == 429) ==> error is Validation
    &&& error.text() == who + " returned HTTP "@ + decimal(status as nat) + ": "@ + summary(
        body,
        SUMMARY_LIMIT as nat,
    )
}

pub fn provider_refusal(who: &str, status: u16, body: &str) -> (error: RaError)
    ensures
        is_provider_refusal(who@, status, body@, error),
{
    let mut sentence = who.to_owned();
    sentence.append(" returned HTTP ");
    sentence.append(decimal_text(status as u64).as_str());
    sentence.append(": ");
    sentence.append(summarise(body, SUMMARY_LIMIT).as_str());
    if (500 <= status && status < 600) || status == 429 {
        RaError::Internal(sentence)
    } else {
        RaError::Validation(sentence)
    }
}

/// How wide the vectors of an answer are: the first one's length, zero where
/// there is none.
pub open spec fn width_of(vectors: Seq<Vec<u64>>) -> nat {
    if vectors.len() == 0 {
        0
    } else {
        vectors[0]@.len()
    }
}

pub fn width(vectors: &Vec<Vec<u64>>) -> (width: usize)
    ensures
        width == width_of(vectors@),
{
    if vectors.len() == 0 {
        0
    } else {
        vectors[0].len()
    }
}

/// A vector is the numbers of its list, all of them and in order; a list with
/// anything else in it is none.
pub proof fn vectors_are_their_numbers(items: Seq<JsonTree>, i: int)
    ensures
        fault_of(Some(JsonTree::List(items))) is None <==> forall|k: int|
            0 <= k < items.len() ==> (#[trigger] items[k]) is Number,
        vector_of(Some(JsonTree::List(items))).len() == items.len(),
        0 <= i < items.len() && items[i] is Number ==> Some(
            vector_of(Some(JsonTree::List(items)))[i],
        ) == double_in(Some(items[i])),
        fault_of(None) == Some(Fault::NoList),
{
    assert forall|k: int| 0 <= k < items.len() implies (double_in(Some(#[trigger] items[k])) is Some
        <==> items[k] is Number) by {}
}

/// A list of vectors is refused for the first that is none.
pub proof fn the_first_fault_is_told(trees: Seq<Option<JsonTree>>)
    ensures
        match first_fault(trees) {
            Some(fault) => exists|i: int|
                0 <= i < trees.len() && fault_of(#[trigger] trees[i]) == Some(fault) && forall|
                    j: int,
                |
                    0 <= j < i ==> fault_of(#[trigger] trees[j]) is None,
            None => forall|i: int| 0 <= i < trees.len() ==> fault_of(#[trigger] trees[i]) is None,
        },
    decreases trees.len(),
{
    if trees.len() > 0 {
        let shorter = trees.drop_last();
        the_first_fault_is_told(shorter);
        match first_fault(shorter) {
            Some(fault) => {
                let i = choose|i: int|
                    0 <= i < shorter.len() && fault_of(#[trigger] shorter[i]) == Some(fault)
                        && forall|j: int| 0 <= j < i ==> fault_of(#[trigger] shorter[j]) is None;
                assert(trees[i] == shorter[i]);
                assert forall|j: int| 0 <= j < i implies fault_of(#[trigger] trees[j]) is None by {
                    assert(shorter[j] == trees[j]);
                }
            },
            None => {
                assert forall|i: int| 0 <= i < shorter.len() implies fault_of(#[trigger] trees[i])
                    is None by {
                    assert(shorter[i] == trees[i]);
                }
                let n = trees.len() - 1;
                if fault_of(trees.last()) is Some {
                    assert(trees[n] == trees.last());
                }
            },
        }
    }
}

/// A provider that fails or is asked too often may answer later; any other
/// refusal is a mistake of the caller's.
pub proof fn refusals_go_by_their_status(
    who: Seq<char>,
    status: u16,
    body: Seq<char>,
    error: RaError,
)
    requires
        is_provider_refusal(who, status, body, error),
    ensures
        status == 429 || 500 <= status < 600 ==> error is Internal,
        status < 500 && status != 429 || status >= 600 ==> error is Validation,
{
}

/// An answer is as wide as its first vector, and has no width where it has none.
pub proof fn the_first_vector_is_the_width(first: Vec<u64>, rest: Seq<Vec<u64>>)
    ensures
        width_of(seq![first] + rest) == first@.len(),
        width_of(Seq::empty()) == 0,
{
}

} // verus!
