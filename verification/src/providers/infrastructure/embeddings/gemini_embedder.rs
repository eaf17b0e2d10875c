//! Embeddings in Gemini's own format.
//!
//! Its models embed a document and the query that should find it differently,
//! and are told which it is: no other format carries that.
use super::remote_embedder::is_in_order;
use super::vectors::{
    first_fault, is_provider_refusal, optional_tree, optional_trees, provider_refusal,
    read_vectors, vector_of, vector_views, width, width_of, Fault,
};
use crate::json::{
    field_of, fields_upto, get_field, json_complaint, json_parse, json_tree, json_trees, list_in,
    list_value, object_value, parse_document, text_value, value_items, JsonTree,
};
use crate::memories::domain::embedder::EmbeddingTask;
use crate::shared::error::{RaError, Result};
use crate::text::{
    debug_text, decimal, decimal_text, drop_end_while, drop_prefixes, is_char, quote, texts, trim,
    trim_end_char, trim_prefixes, trimmed,
};
use vstd::prelude::*;
use vstd::string::StringExecFns;

verus! {

pub const DEFAULT_BASE_URL: &'static str = "https://generativelanguage.googleapis.com/v1beta";

pub const NO_KEY: &'static str =
    "the Gemini embeddings provider needs an API key; set [embeddings].api_key_env to the name of an environment variable holding a Google AI Studio key";

pub open spec fn task_name(task: EmbeddingTask) -> Seq<char> {
    match task {
        EmbeddingTask::Document => "RETRIEVAL_DOCUMENT"@,
        EmbeddingTask::Query => "RETRIEVAL_QUERY"@,
    }
}

/// What a text is embedded for, as Gemini calls it.
pub fn task_type(task: EmbeddingTask) -> (name: &'static str)
    ensures
        name@ == task_name(task),
{
    match task {
        EmbeddingTask::Document => "RETRIEVAL_DOCUMENT",
        EmbeddingTask::Query => "RETRIEVAL_QUERY",
    }
}

/// A text with what it is embedded for.
pub open spec fn embed_tree(model: Seq<char>, text: Seq<char>, task: EmbeddingTask) -> JsonTree {
    let part = Map::<Seq<char>, JsonTree>::empty().insert("text"@, JsonTree::Text(text));
    let content = Map::<Seq<char>, JsonTree>::empty().insert(
        "parts"@,
        JsonTree::List(seq![JsonTree::Object(part)]),
    );
    JsonTree::Object(
        Map::<Seq<char>, JsonTree>::empty().insert("model"@, JsonTree::Text(model)).insert(
            "content"@,
            JsonTree::Object(content),
        ).insert("taskType"@, JsonTree::Text(task_name(task))),
    )
}

/// The document of a request.
pub open spec fn requests_tree(
    model: Seq<char>,
    inputs: Seq<Seq<char>>,
    task: EmbeddingTask,
) -> JsonTree {
    JsonTree::Object(
        Map::<Seq<char>, JsonTree>::empty().insert(
            "requests"@,
            JsonTree::List(inputs.map_values(|t: Seq<char>| embed_tree(model, t, task))),
        ),
    )
}

fn embed_value(model: &str, text: &str, task: EmbeddingTask) -> (value: serde_json::Value)
    ensures
        json_tree(value) == embed_tree(model@, text@, task),
{
    let mut part: Vec<(String, serde_json::Value)> = Vec::new();
    part.push(("text".to_owned(), text_value(text)));
    let ghost part_fields = part@;
    let mut parts: Vec<serde_json::Value> = Vec::new();
    parts.push(object_value(part));
    let ghost part_values = parts@;
    let mut content: Vec<(String, serde_json::Value)> = Vec::new();
    content.push(("parts".to_owned(), list_value(parts)));
    let ghost content_fields = content@;
    let mut fields: Vec<(String, serde_json::Value)> = Vec::new();
    fields.push(("model".to_owned(), text_value(model)));
    fields.push(("content".to_owned(), object_value(content)));
    fields.push(("taskType".to_owned(), text_value(task_type(task))));
    proof {
        reveal_with_fuel(fields_upto, 4);
        assert(fields_upto(part_fields, 1) == fields_upto(part_fields, part_fields.len()));
        assert(fields_upto(content_fields, 1) == fields_upto(content_fields, content_fields.len()));
        assert(json_trees(part_values) =~= seq![json_tree(part_values[0])]);
    }
    object_value(fields)
}

/// The `values` fields of rows.
pub open spec fn value_fields(rows: Seq<JsonTree>) -> Seq<Option<JsonTree>> {
    rows.map_values(|t: JsonTree| field_of(t, "values"@))
}

pub open spec fn fault_sentence(fault: Fault) -> Seq<char> {
    match fault {
        Fault::NoList => "a Gemini embedding had no `values` array"@,
        Fault::NoNumber => "a Gemini embedding value was not numeric"@,
    }
}

/// The vectors of an answer, in order.
pub open spec fn is_parsed(tree: JsonTree, vectors: Result<Vec<Vec<u64>>>) -> bool {
    match list_in(field_of(tree, "embeddings"@)) {
        None => vectors matches Err(e) && e is Internal && e.text()
            == "Gemini response had no `embeddings` array"@,
        Some(rows) => match first_fault(value_fields(rows)) {
            Some(fault) => vectors matches Err(e) && e is Internal && e.text() == fault_sentence(
                fault,
            ),
            None => vectors matches Ok(list) && is_in_order(
                vector_views(list@),
                value_fields(rows),
            ),
        },
    }
}

pub fn parse_embeddings(payload: &serde_json::Value) -> (vectors: Result<Vec<Vec<u64>>>)
    ensures
        is_parsed(json_tree(*payload), vectors),
{
    let data = match get_field(payload, "embeddings") {
        Some(field) => value_items(field),
        None => None,
    };
    let rows = match data {
        Some(rows) => rows,
        None => return Err(
            RaError::Internal("Gemini response had no `embeddings` array".to_owned()),
        ),
    };
    let ghost trees = json_trees(rows@);
    let mut fields: Vec<Option<&serde_json::Value>> = Vec::new();
    let mut i: usize = 0;
    while i < rows.len()
        invariant
            0 <= i <= rows@.len(),
            trees == json_trees(rows@),
            fields@.len() == i,
            forall|j: int|
                0 <= j < i ==> optional_tree(#[trigger] fields@[j]) == value_fields(trees)[j],
        decreases rows@.len() - i,
    {
        assert(trees[i as int] == json_tree(rows@[i as int]));
        fields.push(get_field(&rows[i], "values"));
        i += 1;
    }
    assert(optional_trees(fields@) =~= value_fields(trees));
    match read_vectors(&fields) {
        Ok(list) => {
            proof {
                assert forall|j: int| 0 <= j < list@.len() implies #[trigger] vector_views(
                    list@,
                )[j] == vector_of(value_fields(trees)[j]) by {
                    assert(list@[j]@ == vector_of(optional_trees(fields@)[j]));
                }
            }
            Ok(list)
        },
        Err(fault) => Err(
            RaError::Internal(
                match fault {
                    Fault::NoList => "a Gemini embedding had no `values` array".to_owned(),
                    Fault::NoNumber => "a Gemini embedding value was not numeric".to_owned(),
                },
            ),
        ),
    }
}

/// Gemini's embeddings.
#[derive(Debug)]
pub struct GeminiEmbedder {
    pub base_url: String,
    pub api_key: String,
    /// The bare name, which collections are pinned to.
    pub model: String,
    /// Zero until the model has answered once.
    pub dimensions: usize,
}

impl GeminiEmbedder {
    /// The provider before it has been asked anything. Without a key nothing
    /// is asked at all.
    pub fn new(model: &str, base_url: &str, api_key: String) -> (embedder: Result<GeminiEmbedder>)
        ensures
            match embedder {
                Ok(e) => trimmed(api_key@).len() > 0 && e.api_key == api_key && e.base_url@
                    == drop_end_while(base_url@, is_char('/')) && e.model@ == drop_prefixes(
                    trimmed(model@),
                    "models/"@,
                ) && e.dimensions == 0,
                Err(e) => trimmed(api_key@).len() == 0 && e is Validation && e.text() == NO_KEY@,
            },
    {
        if trim(api_key.as_str()).as_str().is_empty() {
            return Err(RaError::Validation(NO_KEY.to_owned()));
        }
        Ok(
            GeminiEmbedder {
                base_url: trim_end_char(base_url, '/'),
                api_key,
                model: trim_prefixes(trim(model).as_str(), "models/"),
                dimensions: 0,
            },
        )
    }

    /// The provider once it has answered the probe. `named` is the model as
    /// it was configured.
    pub fn load(self, named: &str, probe: &Vec<Vec<u64>>) -> (embedder: Result<GeminiEmbedder>)
        ensures
            match embedder {
                Ok(e) => width_of(probe@) > 0 && e == (GeminiEmbedder {
                    dimensions: width_of(probe@) as usize,
                    ..self
                }),
                Err(e) => width_of(probe@) == 0 && e is Validation && e.text()
                    == "Gemini returned an empty vector for model "@ + debug_text(named@)
                    + "; check that it is an embedding model (e.g. text-embedding-004)"@,
            },
    {
        let dimensions: usize = width(probe);
        if dimensions == 0 {
            let mut sentence = "Gemini returned an empty vector for model ".to_owned();
            sentence.append(quote(named).as_str());
            sentence.append("; check that it is an embedding model (e.g. text-embedding-004)");
            return Err(RaError::Validation(sentence));
        }
        Ok(GeminiEmbedder { dimensions, ..self })
    }

    /// The model as requests name it.
    pub fn qualified_model(&self) -> (name: String)
        ensures
            name@ == "models/"@ + self.model@,
    {
        let mut name = "models/".to_owned();
        name.append(self.model.as_str());
        name
    }

    pub fn model_id(&self) -> (name: &str)
        ensures
            name@ == self.model@,
    {
        self.model.as_str()
    }

    pub fn url(&self) -> (url: String)
        ensures
            url@ == self.base_url@ + "/"@ + ("models/"@ + self.model@) + ":batchEmbedContents"@,
    {
        let mut url = self.base_url.clone();
        url.append("/");
        url.append(self.qualified_model().as_str());
        url.append(":batchEmbedContents");
        url
    }

    /// The headers of a request: the key, which never goes into the address.
    pub fn headers(&self) -> (headers: Vec<(String, String)>)
        ensures
            headers@.len() == 1,
            headers@[0].0@ == "x-goog-api-key"@,
            headers@[0].1@ == self.api_key@,
    {
        let mut headers: Vec<(String, String)> = Vec::new();
        headers.push(("x-goog-api-key".to_owned(), self.api_key.clone()));
        headers
    }

    /// What to send for a batch; nothing, for an empty one.
    pub fn embed(&self, inputs: &Vec<String>, task: EmbeddingTask) -> (body: Option<
        serde_json::Value,
    >)
        ensures
            match body {
                Some(b) => inputs@.len() > 0 && json_tree(b) == requests_tree(
                    "models/"@ + self.model@,
                    texts(inputs@),
                    task,
                ),
                None => inputs@.len() == 0,
            },
    {
        if inputs.len() == 0 {
            return None;
        }
        let qualified = self.qualified_model();
        let ghost trees = texts(inputs@).map_values(
            |t: Seq<char>| embed_tree(qualified@, t, task),
        );
        let mut requests: Vec<serde_json::Value> = Vec::new();
        let mut i: usize = 0;
        while i < inputs.len()
            invariant
                0 <= i <= inputs@.len(),
                requests@.len() == i,
                forall|j: int|
                    0 <= j < i ==> json_tree(#[trigger] requests@[j]) == embed_tree(
                        qualified@,
                        inputs@[j]@,
                        task,
                    ),
            decreases inputs@.len() - i,
        {
            requests.push(embed_value(qualified.as_str(), inputs[i].as_str(), task));
            i += 1;
        }
        assert(json_trees(requests@) =~= trees);
        let mut fields: Vec<(String, serde_json::Value)> = Vec::new();
        fields.push(("requests".to_owned(), list_value(requests)));
        proof {
            reveal_with_fuel(fields_upto, 2);
        }
        Some(object_value(fields))
    }

    /// The request got no answer: that may pass.
    pub fn unreachable(&self, reason: &str) -> (error: RaError)
        ensures
            error is Internal,
            error.text() == "could not reach Gemini at "@ + self.base_url@ + ": "@ + reason@,
    {
        let mut sentence = "could not reach Gemini at ".to_owned();
        sentence.append(self.base_url.as_str());
        sentence.append(": ");
        sentence.append(reason);
        RaError::Internal(sentence)
    }

    /// What an answer to a batch of `expected` texts means.
    pub fn answered(&self, status: u16, body: &str, expected: usize) -> (vectors: Result<
        Vec<Vec<u64>>,
    >)
        ensures
            if !(200 <= status < 300) {
                vectors matches Err(e) && is_provider_refusal("Gemini"@, status, body@, e)
            } else {
                match json_parse(body@) {
                    None => vectors matches Err(e) && e is Internal && e.text()
                        == "Gemini returned invalid JSON: "@ + json_complaint(body@),
                    Some(tree) => match list_in(field_of(tree, "embeddings"@)) {
                        Some(rows) if first_fault(value_fields(rows)) is None && rows.len()
                            != expected => vectors matches Err(e) && e is Internal && e.text()
                            == "asked Gemini for "@ + decimal(expected as nat)
                            + " embeddings, got "@ + decimal(rows.len()),
                        _ => is_parsed(tree, vectors),
                    },
                }
            },
    {
        if !(200 <= status && status < 300) {
            return Err(provider_refusal("Gemini", status, body));
        }
        let payload = match parse_document(body) {
            Ok(value) => value,
            Err(reason) => {
                let mut sentence = "Gemini returned invalid JSON: ".to_owned();
                sentence.append(reason.as_str());
                return Err(RaError::Internal(sentence));
            },
        };
        let list = match parse_embeddings(&payload) {
            Ok(list) => list,
            Err(e) => return Err(e),
        };
        assert(vector_views(list@).len() == list@.len());
        if list.len() != expected {
            let mut sentence = "asked Gemini for ".to_owned();
            sentence.append(decimal_text(expected as u64).as_str());
            sentence.append(" embeddings, got ");
            sentence.append(decimal_text(list.len() as u64).as_str());
            return Err(RaError::Internal(sentence));
        }
        Ok(list)
    }
}

/// A request asks for the vector of every text, in order, from the model, and
/// says what for.
pub proof fn requests_hold_every_text(
    model: Seq<char>,
    inputs: Seq<Seq<char>>,
    task: EmbeddingTask,
    i: int,
)
    requires
        0 <= i < inputs.len(),
    ensures
        list_in(field_of(requests_tree(model, inputs, task), "requests"@)) matches Some(list)
            && list.len() == inputs.len() && ({
            let tree = list[i];
            &&& field_of(tree, "model"@) == Some(JsonTree::Text(model))
            &&& field_of(tree, "taskType"@) == Some(
                JsonTree::Text(
                    if task is Query {
                        "RETRIEVAL_QUERY"@
                    } else {
                        "RETRIEVAL_DOCUMENT"@
                    },
                ),
            )
            &&& field_of(tree, "content"@) matches Some(content) && list_in(
                field_of(content, "parts"@),
            ) matches Some(parts) && parts.len() == 1 && field_of(parts[0], "text"@) == Some(
                JsonTree::Text(inputs[i]),
            )
        }),
{
    reveal_strlit("model");
    reveal_strlit("content");
    reveal_strlit("taskType");
    assert("model"@.len() == 5 && "content"@.len() == 7 && "taskType"@.len() == 8);
}

/// The vectors of an answer are those of its rows, each at its place.
pub proof fn vectors_are_those_of_the_rows(
    tree: JsonTree,
    rows: Seq<JsonTree>,
    vectors: Result<Vec<Vec<u64>>>,
    i: int,
)
    requires
        is_parsed(tree, vectors),
        list_in(field_of(tree, "embeddings"@)) == Some(rows),
    ensures
        vectors matches Ok(list) ==> list@.len() == rows.len() && (0 <= i < rows.len() ==> list@[i]@
            == vector_of(field_of(rows[i], "values"@))),
{
    if let Ok(list) = vectors {
        assert(vector_views(list@).len() == list@.len());
        if 0 <= i < rows.len() {
            assert(vector_views(list@)[i] == list@[i]@);
            assert(vector_views(list@)[i] == vector_of(value_fields(rows)[i]));
        }
    }
}

} // verus!
