//! Embeddings from a provider that speaks one of two formats.
use super::vectors::{
    fault_of, first_fault, is_provider_refusal, optional_tree, optional_trees, provider_refusal,
    read_vector, read_vectors, vector_of, vector_views, width, width_of, Fault,
};
use crate::json::{
    field_of, fields_upto, get_field, json_complaint, json_parse, json_tree, json_trees, list_in,
    object_value, parse_document, text_list, text_value, texts_value, unsigned_in, value_items,
    value_unsigned, JsonTree,
};
use crate::memories::domain::memory::option_text;
use crate::order::{comes_first, is_stable_order, sorted_places, stable_order, SortKey};
use crate::providers::infrastructure::chat::transport::bearer;
use crate::shared::error::{RaError, Result};
use crate::text::{
    debug_text, decimal, decimal_text, drop_end_while, is_char, quote, texts, trim, trim_end_char,
    trimmed,
};
use vstd::prelude::*;
use vstd::string::StringExecFns;

verus! {

pub const OPENAI_DEFAULT_BASE_URL: &'static str = "https://api.openai.com/v1";

pub const OLLAMA_DEFAULT_BASE_URL: &'static str = "http://127.0.0.1:11434";

/// Long enough for a large batch, short enough that a stuck connection does
/// not hold a worker for ever.
pub const TIMEOUT_SECONDS: u64 = 60;

/// Which format to speak.
#[derive(Debug, Clone, Copy, PartialEq, Eq, Structural)]
pub enum EmbeddingApi {
    OpenAiCompat,
    Ollama,
}

/// The document of a request.
pub open spec fn batch_tree(model: Seq<char>, inputs: Seq<Seq<char>>) -> JsonTree {
    JsonTree::Object(
        Map::<Seq<char>, JsonTree>::empty().insert("model"@, JsonTree::Text(model)).insert(
            "input"@,
            text_list(inputs),
        ),
    )
}

pub open spec fn fault_sentence(fault: Fault) -> Seq<char> {
    match fault {
        Fault::NoList => "an embedding was not an array of numbers"@,
        Fault::NoNumber => "an embedding contained a non-numeric value"@,
    }
}

fn fault_error(fault: Fault) -> (error: RaError)
    ensures
        error is Internal,
        error.text() == fault_sentence(fault),
{
    RaError::Internal(
        match fault {
            Fault::NoList => "an embedding was not an array of numbers".to_owned(),
            Fault::NoNumber => "an embedding contained a non-numeric value".to_owned(),
        },
    )
}

/// The vector that a document is.
pub fn extract_vector(value: &serde_json::Value) -> (vector: Result<Vec<u64>>)
    ensures
        match vector {
            Ok(v) => fault_of(Some(json_tree(*value))) is None && v@ == vector_of(
                Some(json_tree(*value)),
            ),
            Err(e) => e is Internal && (match fault_of(Some(json_tree(*value))) {
                Some(fault) => e.text() == fault_sentence(fault),
                None => false,
            }),
        },
{
    match read_vector(Some(value)) {
        Ok(vector) => Ok(vector),
        Err(fault) => Err(fault_error(fault)),
    }
}

/// The `embedding` fields of entries.
pub open spec fn embedding_fields(entries: Seq<JsonTree>) -> Seq<Option<JsonTree>> {
    entries.map_values(|t: JsonTree| field_of(t, "embedding"@))
}

/// What entries are sorted by: their `index`, or their place where they have
/// none.
pub open spec fn index_keys(entries: Seq<JsonTree>) -> Seq<SortKey> {
    Seq::new(
        entries.len(),
        |i: int|
            (
                match unsigned_in(field_of(entries[i], "index"@)) {
                    Some(index) => index as u128,
                    None => i as u128,
                },
                0,
                0,
            ),
    )
}

/// `vectors` are those of the entries, in the order of their indexes.
pub open spec fn is_reordered(vectors: Seq<Seq<u64>>, entries: Seq<JsonTree>) -> bool {
    let places = sorted_places(index_keys(entries));
    &&& vectors.len() == entries.len()
    &&& is_stable_order(places, index_keys(entries))
    &&& forall|i: int|
        0 <= i < vectors.len() ==> #[trigger] vectors[i] == vector_of(
            embedding_fields(entries)[places[i] as int],
        )
}

/// The vectors of an answer in the first format, in the order of their
/// indexes: the field is there so that nobody has to rely on arrival.
pub fn parse_openai(payload: &serde_json::Value) -> (vectors: Result<Vec<Vec<u64>>>)
    ensures
        match list_in(field_of(json_tree(*payload), "data"@)) {
            None => vectors matches Err(e) && e is Internal && e.text()
                == "embedding response has no `data` array"@,
            Some(entries) => match first_fault(embedding_fields(entries)) {
                Some(fault) => vectors matches Err(e) && e is Internal && e.text()
                    == fault_sentence(fault),
                None => vectors matches Ok(list) && is_reordered(vector_views(list@), entries),
            },
        },
{
    let data = match get_field(payload, "data") {
        Some(field) => value_items(field),
        None => None,
    };
    let entries = match data {
        Some(entries) => entries,
        None => return Err(
            RaError::Internal("embedding response has no `data` array".to_owned()),
        ),
    };
    let ghost trees = json_trees(entries@);
    let mut fields: Vec<Option<&serde_json::Value>> = Vec::new();
    let mut keys: Vec<SortKey> = Vec::new();
    let mut i: usize = 0;
    while i < entries.len()
        invariant
            0 <= i <= entries@.len(),
            trees == json_trees(entries@),
            fields@.len() == i,
            keys@.len() == i,
            forall|j: int|
                0 <= j < i ==> optional_tree(#[trigger] fields@[j]) == embedding_fields(trees)[j],
            forall|j: int| 0 <= j < i ==> #[trigger] keys@[j] == index_keys(trees)[j],
        decreases entries@.len() - i,
    {
        assert(trees[i as int] == json_tree(entries@[i as int]));
        fields.push(get_field(&entries[i], "embedding"));
        let named = match get_field(&entries[i], "index") {
            Some(field) => value_unsigned(field),
            None => None,
        };
        let index: u128 = match named {
            Some(n) => n as u128,
            None => i as u128,
        };
        keys.push((index, 0, 0));
        i += 1;
    }
    assert(optional_trees(fields@) =~= embedding_fields(trees));
    assert(keys@ =~= index_keys(trees));
    let vectors = match read_vectors(&fields) {
        Ok(vectors) => vectors,
        Err(fault) => return Err(fault_error(fault)),
    };
    let places = stable_order(&keys);
    let mut sorted: Vec<Vec<u64>> = Vec::new();
    let mut k: usize = 0;
    while k < places.len()
        invariant
            0 <= k <= places@.len(),
            places@.len() == vectors@.len(),
            vectors@.len() == trees.len(),
            is_stable_order(places@, index_keys(trees)),
            index_keys(trees).len() == trees.len(),
            forall|j: int|
                0 <= j < vectors@.len() ==> (#[trigger] vectors@[j])@ == vector_of(
                    embedding_fields(trees)[j],
                ),
            sorted@.len() == k,
            forall|j: int|
                0 <= j < k ==> (#[trigger] sorted@[j])@ == vector_of(
                    embedding_fields(trees)[places@[j] as int],
                ),
        decreases places@.len() - k,
    {
        let place: usize = places[k];
        sorted.push(copy_vector(&vectors[place]));
        k += 1;
    }
    proof {
        assert forall|j: int| 0 <= j < sorted@.len() implies #[trigger] vector_views(sorted@)[j]
            == vector_of(embedding_fields(trees)[places@[j] as int]) by {
            assert(sorted@[j]@ == vector_of(embedding_fields(trees)[places@[j] as int]));
        }
    }
    Ok(sorted)
}

fn copy_vector(vector: &Vec<u64>) -> (copy: Vec<u64>)
    ensures
        copy@ == vector@,
{
    let mut copy: Vec<u64> = Vec::new();
    let mut i: usize = 0;
    while i < vector.len()
        invariant
            0 <= i <= vector@.len(),
            copy@ == vector@.take(i as int),
        decreases vector@.len() - i,
    {
        copy.push(vector[i]);
        assert(vector@.take(i + 1) =~= vector@.take(i as int).push(vector@[i as int]));
        i += 1;
    }
    assert(vector@.take(vector@.len() as int) =~= vector@);
    copy
}

/// Documents as optional ones.
pub open spec fn present(trees: Seq<JsonTree>) -> Seq<Option<JsonTree>> {
    trees.map_values(|t: JsonTree| Some(t))
}

/// `vectors` are those of the rows, in order.
pub open spec fn is_in_order(vectors: Seq<Seq<u64>>, rows: Seq<Option<JsonTree>>) -> bool {
    &&& vectors.len() == rows.len()
    &&& forall|i: int| 0 <= i < vectors.len() ==> #[trigger] vectors[i] == vector_of(rows[i])
}

/// The vectors of an answer in the second format, in order.
pub fn parse_ollama(payload: &serde_json::Value) -> (vectors: Result<Vec<Vec<u64>>>)
    ensures
        match list_in(field_of(json_tree(*payload), "embeddings"@)) {
            None => vectors matches Err(e) && e is Internal && e.text()
                == "embedding response has no `embeddings` array"@,
            Some(rows) => match first_fault(present(rows)) {
                Some(fault) => vectors matches Err(e) && e is Internal && e.text()
                    == fault_sentence(fault),
                None => vectors matches Ok(list) && is_in_order(
                    vector_views(list@),
                    present(rows),
                ),
            },
        },
{
    let data = match get_field(payload, "embeddings") {
        Some(field) => value_items(field),
        None => None,
    };
    let rows = match data {
        Some(rows) => rows,
        None => return Err(
            RaError::Internal("embedding response has no `embeddings` array".to_owned()),
        ),
    };
    let ghost trees = json_trees(rows@);
    let mut fields: Vec<Option<&serde_json::Value>> = Vec::new();
    let mut i: usize = 0;
    while i < rows.len()
        invariant
            0 <= i <= rows@.len(),
            trees == json_trees(rows@),
            fields@.len() == i,
            forall|j: int| 0 <= j < i ==> optional_tree(#[trigger] fields@[j]) == Some(trees[j]),
        decreases rows@.len() - i,
    {
        fields.push(Some(&rows[i]));
        i += 1;
    }
    assert(optional_trees(fields@) =~= present(trees));
    match read_vectors(&fields) {
        Ok(list) => {
            proof {
                assert forall|j: int| 0 <= j < list@.len() implies #[trigger] vector_views(
                    list@,
                )[j] == vector_of(present(trees)[j]) by {
                    assert(list@[j]@ == vector_of(optional_trees(fields@)[j]));
                }
            }
            Ok(list)
        },
        Err(fault) => Err(fault_error(fault)),
    }
}

/// The vectors that a document holds in a format, if it holds them.
pub open spec fn holds_vectors(
    api: EmbeddingApi,
    tree: JsonTree,
    vectors: Seq<Seq<u64>>,
) -> bool {
    match api {
        EmbeddingApi::OpenAiCompat => match list_in(field_of(tree, "data"@)) {
            Some(entries) => first_fault(embedding_fields(entries)) is None && is_reordered(
                vectors,
                entries,
            ),
            None => false,
        },
        EmbeddingApi::Ollama => match list_in(field_of(tree, "embeddings"@)) {
            Some(rows) => first_fault(present(rows)) is None && is_in_order(vectors, present(rows)),
            None => false,
        },
    }
}

/// What is wrong with a document in a format, if something is.
pub open spec fn shape_complaint(api: EmbeddingApi, tree: JsonTree) -> Option<Seq<char>> {
    match api {
        EmbeddingApi::OpenAiCompat => match list_in(field_of(tree, "data"@)) {
            None => Some("embedding response has no `data` array"@),
            Some(entries) => match first_fault(embedding_fields(entries)) {
                Some(fault) => Some(fault_sentence(fault)),
                None => None,
            },
        },
        EmbeddingApi::Ollama => match list_in(field_of(tree, "embeddings"@)) {
            None => Some("embedding response has no `embeddings` array"@),
            Some(rows) => match first_fault(present(rows)) {
                Some(fault) => Some(fault_sentence(fault)),
                None => None,
            },
        },
    }
}

/// How many vectors an answer holds.
pub open spec fn count_in(api: EmbeddingApi, tree: JsonTree) -> nat {
    match api {
        EmbeddingApi::OpenAiCompat => list_in(field_of(tree, "data"@))->0.len(),
        EmbeddingApi::Ollama => list_in(field_of(tree, "embeddings"@))->0.len(),
    }
}

/// A remote provider of embeddings.
#[derive(Debug)]
pub struct RemoteEmbedder {
    pub api: EmbeddingApi,
    pub base_url: String,
    /// None for a server without keys.
    pub api_key: Option<String>,
    pub model: String,
    /// Zero until the model has answered once.
    pub dimensions: usize,
}

impl RemoteEmbedder {
    /// The provider before it has been asked anything. A blank key is none.
    pub fn new(api: EmbeddingApi, model: &str, base_url: &str, api_key: Option<String>) -> (embedder:
        RemoteEmbedder)
        ensures
            embedder.api == api,
            embedder.model@ == model@,
            embedder.base_url@ == drop_end_while(base_url@, is_char('/')),
            embedder.dimensions == 0,
            option_text(embedder.api_key) == (match api_key {
                Some(key) => if trimmed(key@).len() == 0 {
                    None
                } else {
                    Some(key@)
                },
                None => None,
            }),
    {
        let key = match api_key {
            Some(key) => if trim(key.as_str()).as_str().is_empty() {
                None
            } else {
                Some(key)
            },
            None => None,
        };
        RemoteEmbedder {
            api,
            base_url: trim_end_char(base_url, '/'),
            api_key: key,
            model: model.to_owned(),
            dimensions: 0,
        }
    }

    /// The provider once it has answered the probe: its vectors are as wide as
    /// the first one.
    pub fn load(self, probe: &Vec<Vec<u64>>) -> (embedder: Result<RemoteEmbedder>)
        ensures
            match embedder {
                Ok(e) => width_of(probe@) > 0 && e == (RemoteEmbedder {
                    dimensions: width_of(probe@) as usize,
                    ..self
                }),
                Err(e) => width_of(probe@) == 0 && e is Validation && e.text()
                    == "the embedding provider returned an empty vector for model "@ + debug_text(
                    self.model@,
                ) + "; check that the model name is an embedding model"@,
            },
    {
        let dimensions: usize = width(probe);
        if dimensions == 0 {
            let mut sentence =
                "the embedding provider returned an empty vector for model ".to_owned();
            sentence.append(quote(self.model.as_str()).as_str());
            sentence.append("; check that the model name is an embedding model");
            return Err(RaError::Validation(sentence));
        }
        Ok(RemoteEmbedder { dimensions, ..self })
    }

    pub fn endpoint(&self) -> (url: String)
        ensures
            url@ == self.base_url@ + (match self.api {
                EmbeddingApi::OpenAiCompat => "/embeddings"@,
                EmbeddingApi::Ollama => "/api/embed"@,
            }),
    {
        let mut url = self.base_url.clone();
        match self.api {
            EmbeddingApi::OpenAiCompat => url.append("/embeddings"),
            EmbeddingApi::Ollama => url.append("/api/embed"),
        }
        url
    }

    /// The headers of a request: the key as a bearer token, where there is
    /// one.
    pub fn headers(&self) -> (headers: Vec<(String, String)>)
        ensures
            match self.api_key {
                Some(key) => headers@.len() == 1 && headers@[0].0@ == "authorization"@
                    && headers@[0].1@ == "Bearer "@ + key@,
                None => headers@.len() == 0,
            },
    {
        let mut headers: Vec<(String, String)> = Vec::new();
        match &self.api_key {
            Some(key) => headers.push(bearer(key.as_str())),
            None => {},
        }
        headers
    }

    /// The document of a request: a batch under `input` in both formats.
    pub fn request_body(&self, inputs: &Vec<String>) -> (body: serde_json::Value)
        ensures
            json_tree(body) == batch_tree(self.model@, texts(inputs@)),
    {
        let mut fields: Vec<(String, serde_json::Value)> = Vec::new();
        fields.push(("model".to_owned(), text_value(self.model.as_str())));
        fields.push(("input".to_owned(), texts_value(inputs)));
        proof {
            reveal_with_fuel(fields_upto, 3);
        }
        object_value(fields)
    }

    /// What to send for a batch; nothing, for an empty one.
    pub fn embed(&self, inputs: &Vec<String>) -> (body: Option<serde_json::Value>)
        ensures
            match body {
                Some(b) => inputs@.len() > 0 && json_tree(b) == batch_tree(
                    self.model@,
                    texts(inputs@),
                ),
                None => inputs@.len() == 0,
            },
    {
        if inputs.len() == 0 {
            None
        } else {
            Some(self.request_body(inputs))
        }
    }

    /// The request got no answer: that may pass.
    pub fn unreachable(&self, reason: &str) -> (error: RaError)
        ensures
            error is Internal,
            error.text() == "could not reach the embedding provider at "@ + self.base_url@ + ": "@
                + reason@,
    {
        let mut sentence = "could not reach the embedding provider at ".to_owned();
        sentence.append(self.base_url.as_str());
        sentence.append(": ");
        sentence.append(reason);
        RaError::Internal(sentence)
    }

    /// What an answer to a batch of `expected` texts means.
    pub fn answered(&self, status: u16, body: &str, expected: usize) -> (vectors: Result<
        Vec<Vec<u64>>,
    >)
        ensures
            if !(200 <= status < 300) {
                vectors matches Err(e) && is_provider_refusal(
                    "embedding provider"@,
                    status,
                    body@,
                    e,
                )
            } else {
                match json_parse(body@) {
                    None => vectors matches Err(e) && e is Internal && e.text()
                        == "the embedding provider returned invalid JSON: "@ + json_complaint(
                        body@,
                    ),
                    Some(tree) => match shape_complaint(self.api, tree) {
                        Some(sentence) => vectors matches Err(e) && e is Internal && e.text()
                            == sentence,
                        None => if count_in(self.api, tree) != expected {
                            vectors matches Err(e) && e is Internal && e.text() == "asked for "@
                                + decimal(expected as nat)
                                + " embeddings, the provider returned "@ + decimal(
                                count_in(self.api, tree),
                            )
                        } else {
                            vectors matches Ok(list) && list@.len() == expected && holds_vectors(
                                self.api,
                                tree,
                                vector_views(list@),
                            )
                        },
                    },
                }
            },
    {
        if !(200 <= status && status < 300) {
            return Err(provider_refusal("embedding provider", status, body));
        }
        let payload = match parse_document(body) {
            Ok(value) => value,
            Err(reason) => {
                let mut sentence = "the embedding provider returned invalid JSON: ".to_owned();
                sentence.append(reason.as_str());
                return Err(RaError::Internal(sentence));
            },
        };
        let parsed = match self.api {
            EmbeddingApi::OpenAiCompat => parse_openai(&payload),
            EmbeddingApi::Ollama => parse_ollama(&payload),
        };
        let list = match parsed {
            Ok(list) => list,
            Err(e) => return Err(e),
        };
        assert(vector_views(list@).len() == list@.len());
        if list.len() != expected {
            let mut sentence = "asked for ".to_owned();
            sentence.append(decimal_text(expected as u64).as_str());
            sentence.append(" embeddings, the provider returned ");
            sentence.append(decimal_text(list.len() as u64).as_str());
            return Err(RaError::Internal(sentence));
        }
        Ok(list)
    }
}

/// However the entries arrive, the vectors come out in the order of their
/// indexes: an entry with a smaller index comes out before one with a larger.
pub proof fn vectors_come_in_index_order(
    vectors: Seq<Seq<u64>>,
    entries: Seq<JsonTree>,
    i: int,
    j: int,
)
    requires
        is_reordered(vectors, entries),
        0 <= i < j < vectors.len(),
    ensures
        ({
            let places = sorted_places(index_keys(entries));
            &&& index_keys(entries)[places[i] as int].0 <= index_keys(entries)[places[j] as int].0
            &&& vectors[i] == vector_of(embedding_fields(entries)[places[i] as int])
            &&& vectors[j] == vector_of(embedding_fields(entries)[places[j] as int])
        }),
{
    let places = sorted_places(index_keys(entries));
    assert(comes_first(index_keys(entries), places[i] as int, places[j] as int));
}

/// Where an entry belongs: at its index, or where it stands if it has none.
pub open spec fn place_of(entries: Seq<JsonTree>, k: int) -> int {
    match unsigned_in(field_of(entries[k], "index"@)) {
        Some(index) => index as int,
        None => k,
    }
}

/// Each vector comes out at the place of the text that it is of: where the
/// places of the entries are those of a list, each once, an entry's vector is
/// found at its own.
pub proof fn vectors_come_out_at_their_places(
    vectors: Seq<Seq<u64>>,
    entries: Seq<JsonTree>,
    k: int,
)
    requires
        is_reordered(vectors, entries),
        entries.len() <= usize::MAX,
        forall|i: int| 0 <= i < entries.len() ==> 0 <= #[trigger] place_of(entries, i) < entries.len(),
        forall|i: int, j: int|
            0 <= i < j < entries.len() ==> #[trigger] place_of(entries, i) != #[trigger] place_of(
                entries,
                j,
            ),
        0 <= k < entries.len(),
    ensures
        vectors[place_of(entries, k)] == vector_of(field_of(entries[k], "embedding"@)),
{
    let keys = index_keys(entries);
    let places = sorted_places(keys);
    let n = entries.len() as int;
    assert forall|i: int| 0 <= i < n implies (#[trigger] places[i]) < n by {}
    assert forall|i: int| 0 <= i < n implies #[trigger] place_of(entries, places[i] as int)
        == i by {
        lemma_at_least(entries, i);
        lemma_at_most(entries, i);
    }
    crate::order::lemma_arrangement_covers(places, entries.len(), k as usize);
    let i = choose|i: int| 0 <= i < places.len() && places[i] == k as usize;
    assert(places[i] as int == k);
    assert(place_of(entries, places[i] as int) == i);
    assert(vectors[i] == vector_of(embedding_fields(entries)[places[i] as int]));
}

proof fn lemma_at_least(entries: Seq<JsonTree>, i: int)
    requires
        is_stable_order(sorted_places(index_keys(entries)), index_keys(entries)),
        forall|i: int| 0 <= i < entries.len() ==> 0 <= #[trigger] place_of(entries, i) < entries.len(),
        forall|i: int, j: int|
            0 <= i < j < entries.len() ==> #[trigger] place_of(entries, i) != #[trigger] place_of(
                entries,
                j,
            ),
        0 <= i < entries.len(),
    ensures
        place_of(entries, sorted_places(index_keys(entries))[i] as int) >= i,
    decreases i,
{
    let keys = index_keys(entries);
    let places = sorted_places(keys);
    assert(places[i] < keys.len());
    if i > 0 {
        lemma_at_least(entries, i - 1);
        lemma_next_is_greater(entries, i - 1);
    } else {
        assert(place_of(entries, places[i] as int) >= 0);
    }
}

proof fn lemma_at_most(entries: Seq<JsonTree>, i: int)
    requires
        is_stable_order(sorted_places(index_keys(entries)), index_keys(entries)),
        forall|i: int| 0 <= i < entries.len() ==> 0 <= #[trigger] place_of(entries, i) < entries.len(),
        forall|i: int, j: int|
            0 <= i < j < entries.len() ==> #[trigger] place_of(entries, i) != #[trigger] place_of(
                entries,
                j,
            ),
        0 <= i < entries.len(),
    ensures
        place_of(entries, sorted_places(index_keys(entries))[i] as int) <= i,
    decreases entries.len() - i,
{
    let keys = index_keys(entries);
    let places = sorted_places(keys);
    assert(places[i] < keys.len());
    if i < entries.len() - 1 {
        lemma_at_most(entries, i + 1);
        lemma_next_is_greater(entries, i);
    } else {
        assert(place_of(entries, places[i] as int) < entries.len());
    }
}

proof fn lemma_next_is_greater(entries: Seq<JsonTree>, i: int)
    requires
        is_stable_order(sorted_places(index_keys(entries)), index_keys(entries)),
        forall|i: int, j: int|
            0 <= i < j < entries.len() ==> #[trigger] place_of(entries, i) != #[trigger] place_of(
                entries,
                j,
            ),
        0 <= i < entries.len() - 1,
    ensures
        place_of(entries, sorted_places(index_keys(entries))[i] as int) < place_of(
            entries,
            sorted_places(index_keys(entries))[i + 1] as int,
        ),
{
    let keys = index_keys(entries);
    let places = sorted_places(keys);
    let (a, b) = (places[i] as int, places[i + 1] as int);
    assert(comes_first(keys, places[i] as int, places[i + 1] as int));
    assert(places[i] < keys.len() && places[i + 1] < keys.len());
    assert(places[i] != places[i + 1]);
    assert(keys[a].0 == place_of(entries, a) as u128 && keys[b].0 == place_of(entries, b) as u128);
    if a < b {
        assert(place_of(entries, a) != place_of(entries, b));
    } else {
        assert(place_of(entries, b) != place_of(entries, a));
    }
}

/// A request asks for the vector of every text, in order, from the model.
pub proof fn requests_hold_every_text(model: Seq<char>, inputs: Seq<Seq<char>>)
    ensures
        field_of(batch_tree(model, inputs), "model"@) == Some(JsonTree::Text(model)),
        list_in(field_of(batch_tree(model, inputs), "input"@)) matches Some(list) && list.len()
            == inputs.len() && forall|i: int|
            0 <= i < inputs.len() ==> #[trigger] list[i] == JsonTree::Text(inputs[i]),
{
    reveal_strlit("model");
    reveal_strlit("input");
    assert("model"@[0] == 'm' && "input"@[0] == 'i');
}

/// The vectors that an answer holds are as many as its entries, whatever the
/// format; in the one that has no indexes, each is found where its row is.
pub proof fn answers_hold_a_vector_for_each_entry(
    api: EmbeddingApi,
    tree: JsonTree,
    vectors: Seq<Seq<u64>>,
    rows: Seq<JsonTree>,
    i: int,
)
    requires
        holds_vectors(api, tree, vectors),
        0 <= i < vectors.len(),
    ensures
        shape_complaint(api, tree) is None,
        vectors.len() == count_in(api, tree),
        api is Ollama && list_in(field_of(tree, "embeddings"@)) == Some(rows) ==> vectors.len()
            == rows.len() && vectors[i] == vector_of(Some(rows[i])),
{
}

} // verus!
