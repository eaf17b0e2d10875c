//! The tools' requests to a running daemon, and what its answers mean.
//!
//! The daemon is asked over the same interface as anyone else uses, so there
//! is no privileged way in.
use super::memory_toolbox::{RecallRequest, SaveOutcome, SaveRequest, ToolMemory};
use crate::json::{
    double_in, field_of, fields_upto, get_field, json_parse, json_tree, json_trees, list_in,
    number_value, object_value, parse_document, text_field, text_in, text_list, text_value,
    texts_value, value_double, value_items, value_text, JsonNumber, JsonTree,
};
use crate::memories::domain::memory::option_text;
use crate::providers::infrastructure::chat::transport::bearer;
use crate::shared::error::{RaError, Result};
use crate::shared::time::{rfc3339_complaint, rfc3339_instant, Timestamp};
use crate::text::{debug_text, drop_end_while, is_char, quote, texts, trim_end_char};
use vstd::prelude::*;
use vstd::string::StringExecFns;

verus! {

pub const SAVE_PATH: &'static str = "/v1/memories:direct";

pub const SEARCH_PATH: &'static str = "/v1/memories/search";

pub const PROFILE_PATH: &'static str = "/v1/profile";

/// The texts of a list, what is none left out.
pub open spec fn texts_among(trees: Seq<JsonTree>) -> Seq<Seq<char>>
    decreases trees.len(),
{
    if trees.len() == 0 {
        Seq::empty()
    } else {
        match text_in(Some(trees.last())) {
            Some(t) => texts_among(trees.drop_last()).push(t),
            None => texts_among(trees.drop_last()),
        }
    }
}

/// The tags of an answered memory.
pub open spec fn answered_tags(tree: JsonTree) -> Seq<Seq<char>> {
    match list_in(field_of(tree, "tags"@)) {
        Some(trees) => texts_among(trees),
        None => Seq::empty(),
    }
}

pub open spec fn missing(name: Seq<char>) -> Seq<char> {
    "daemon response is missing "@ + debug_text(name)
}

/// What is wrong with an answered memory, if something is: what is wrong
/// first.
pub open spec fn memory_complaint(tree: JsonTree) -> Option<Seq<char>> {
    if text_in(field_of(tree, "id"@)) is None {
        Some(missing("id"@))
    } else if text_in(field_of(tree, "content"@)) is None {
        Some(missing("content"@))
    } else if text_in(field_of(tree, "category"@)) is None {
        Some(missing("category"@))
    } else if text_in(field_of(tree, "created_at"@)) is None {
        Some(missing("created_at"@))
    } else if rfc3339_instant(text_in(field_of(tree, "created_at"@))->0) is None {
        Some(
            "daemon sent an unparseable timestamp: "@ + rfc3339_complaint(
                text_in(field_of(tree, "created_at"@))->0,
            ),
        )
    } else {
        None
    }
}

/// `memory` is what the document describes.
pub open spec fn is_answered(memory: ToolMemory, tree: JsonTree) -> bool {
    &&& memory_complaint(tree) is None
    &&& text_in(field_of(tree, "id"@)) == Some(memory.id@)
    &&& text_in(field_of(tree, "content"@)) == Some(memory.content@)
    &&& text_in(field_of(tree, "category"@)) == Some(memory.category@)
    &&& texts(memory.tags@) == answered_tags(tree)
    &&& rfc3339_instant(text_in(field_of(tree, "created_at"@))->0) == Some(
        memory.created_at.parts(),
    )
    &&& memory.score == double_in(field_of(tree, "score"@))
}

/// The first complaint about the memories of a list, if there is one.
pub open spec fn first_complaint(trees: Seq<JsonTree>) -> Option<Seq<char>>
    decreases trees.len(),
{
    if trees.len() == 0 {
        None
    } else {
        match first_complaint(trees.drop_last()) {
            Some(c) => Some(c),
            None => memory_complaint(trees.last()),
        }
    }
}

/// The results of an answered search: none, where there is no list of them.
pub open spec fn answered_results(tree: JsonTree) -> Seq<JsonTree> {
    match list_in(field_of(tree, "results"@)) {
        Some(trees) => trees,
        None => Seq::empty(),
    }
}

/// The sentence of an answered error.
pub open spec fn error_message(payload: JsonTree) -> Seq<char> {
    match field_of(payload, "error"@) {
        Some(error) => match text_in(field_of(error, "message"@)) {
            Some(message) => message,
            None => "request failed"@,
        },
        None => "request failed"@,
    }
}

/// `error` is the failure that a status stands for, with its sentence.
pub open spec fn is_failure(
    error: RaError,
    status: u16,
    shown: Seq<char>,
    message: Seq<char>,
) -> bool {
    match error {
        RaError::Validation(m) => status == 400 && m@ == message,
        RaError::Unauthorized(m) => status == 401 && m@ == message,
        RaError::Forbidden(m) => status == 403 && m@ == message,
        RaError::NotFound(m) => status == 404 && m@ == message,
        RaError::Conflict(m) => status == 409 && m@ == message,
        RaError::Internal(m) => status != 400 && status != 401 && status != 403 && status != 404
            && status != 409 && m@ == "daemon returned "@ + shown + ": "@ + message,
    }
}

/// The document of an answer's body: an empty object, where the body could not
/// be had or is not JSON.
pub open spec fn payload_of(body: Option<Seq<char>>) -> JsonTree {
    match body {
        Some(text) => match json_parse(text) {
            Some(tree) => tree,
            None => JsonTree::Object(Map::empty()),
        },
        None => JsonTree::Object(Map::empty()),
    }
}

/// The document of a save.
pub open spec fn save_tree(request: SaveRequest) -> JsonTree {
    let bare = Map::<Seq<char>, JsonTree>::empty().insert(
        "content"@,
        JsonTree::Text(request.content@),
    ).insert("tags"@, text_list(texts(request.tags@)));
    let filed = match request.category {
        Some(category) => bare.insert("category"@, JsonTree::Text(category@)),
        None => bare,
    };
    JsonTree::Object(
        match request.client {
            Some(client) => filed.insert("client"@, JsonTree::Text(client@)),
            None => filed,
        },
    )
}

/// The document of a recall.
pub open spec fn recall_tree(request: RecallRequest) -> JsonTree {
    let bare = Map::<Seq<char>, JsonTree>::empty().insert(
        "query"@,
        JsonTree::Text(request.query@),
    ).insert("categories"@, text_list(texts(request.categories@)));
    JsonTree::Object(
        match request.limit {
            Some(limit) => bare.insert(
                "limit"@,
                JsonTree::Number(JsonNumber::Unsigned(limit as u64)),
            ),
            None => bare,
        },
    )
}

fn required_field(value: &serde_json::Value, name: &str) -> (text: Result<String>)
    ensures
        match text {
            Ok(t) => text_in(field_of(json_tree(*value), name@)) == Some(t@),
            Err(e) => text_in(field_of(json_tree(*value), name@)) is None && e is Internal
                && e.text() == missing(name@),
        },
{
    match text_field(value, name) {
        Some(text) => Ok(text),
        None => {
            let mut sentence = "daemon response is missing ".to_owned();
            sentence.append(quote(name).as_str());
            Err(RaError::Internal(sentence))
        },
    }
}

fn read_tags(value: &serde_json::Value) -> (tags: Vec<String>)
    ensures
        texts(tags@) == answered_tags(json_tree(*value)),
{
    let mut tags: Vec<String> = Vec::new();
    assert(texts(tags@) =~= Seq::empty());
    let items = match get_field(value, "tags") {
        Some(field) => match value_items(field) {
            Some(items) => items,
            None => return tags,
        },
        None => return tags,
    };
    let ghost trees = json_trees(items@);
    let mut i: usize = 0;
    assert(trees.take(0) =~= Seq::empty());
    while i < items.len()
        invariant
            0 <= i <= items@.len(),
            trees == json_trees(items@),
            texts(tags@) == texts_among(trees.take(i as int)),
        decreases items@.len() - i,
    {
        proof {
            assert(trees.take(i + 1).drop_last() =~= trees.take(i as int));
            assert(trees.take(i + 1).last() == json_tree(items@[i as int]));
        }
        match value_text(&items[i]) {
            Some(text) => {
                let ghost before = tags@;
                let ghost added = text@;
                tags.push(text);
                assert(texts(tags@) =~= texts(before).push(added));
            },
            None => {},
        }
        i += 1;
    }
    assert(trees.take(trees.len() as int) =~= trees);
    tags
}

/// The memory that the daemon answered.
pub fn parse_memory(value: &serde_json::Value) -> (memory: Result<ToolMemory>)
    ensures
        match memory {
            Ok(m) => is_answered(m, json_tree(*value)),
            Err(e) => e is Internal && memory_complaint(json_tree(*value)) == Some(e.text()),
        },
{
    let id = match required_field(value, "id") {
        Ok(text) => text,
        Err(e) => return Err(e),
    };
    let content = match required_field(value, "content") {
        Ok(text) => text,
        Err(e) => return Err(e),
    };
    let category = match required_field(value, "category") {
        Ok(text) => text,
        Err(e) => return Err(e),
    };
    let raw = match required_field(value, "created_at") {
        Ok(text) => text,
        Err(e) => return Err(e),
    };
    let created_at = match Timestamp::parse(raw.as_str()) {
        Ok(time) => time,
        Err(reason) => {
            let mut sentence = "daemon sent an unparseable timestamp: ".to_owned();
            sentence.append(reason.as_str());
            return Err(RaError::Internal(sentence));
        },
    };
    let score = match get_field(value, "score") {
        Some(field) => value_double(field),
        None => None,
    };
    Ok(ToolMemory { id, content, category, tags: read_tags(value), created_at, score })
}

/// The tools' side of the daemon's interface.
#[derive(Debug)]
pub struct HttpMemoryToolbox {
    pub base_url: String,
    pub api_key: String,
}

impl HttpMemoryToolbox {
    pub fn new(base_url: &str, api_key: &str) -> (toolbox: HttpMemoryToolbox)
        ensures
            toolbox.base_url@ == drop_end_while(base_url@, is_char('/')),
            toolbox.api_key@ == api_key@,
    {
        HttpMemoryToolbox {
            base_url: trim_end_char(base_url, '/'),
            api_key: api_key.to_owned(),
        }
    }

    pub fn url(&self, path: &str) -> (url: String)
        ensures
            url@ == self.base_url@ + path@,
    {
        let mut url = self.base_url.clone();
        url.append(path);
        url
    }

    /// The headers of a request: the key as a bearer token.
    pub fn headers(&self) -> (headers: Vec<(String, String)>)
        ensures
            headers@.len() == 1,
            headers@[0].0@ == "authorization"@,
            headers@[0].1@ == "Bearer "@ + self.api_key@,
    {
        let mut headers: Vec<(String, String)> = Vec::new();
        headers.push(bearer(self.api_key.as_str()));
        headers
    }

    /// The request got no answer at all.
    pub fn unreachable(&self, reason: &str) -> (error: RaError)
        ensures
            error is Internal,
            error.text() == "could not reach the RecordAgent daemon at "@ + self.base_url@ + ": "@
                + reason@ + ". Is it running?"@,
    {
        let mut sentence = "could not reach the RecordAgent daemon at ".to_owned();
        sentence.append(self.base_url.as_str());
        sentence.append(": ");
        sentence.append(reason);
        sentence.append(". Is it running?");
        RaError::Internal(sentence)
    }

    /// What an answer means, from its status and its body. `shown` is the
    /// status as it is displayed.
    pub fn read_answer(&self, status: u16, shown: &str, body: Option<String>) -> (answer: Result<
        serde_json::Value,
    >)
        ensures
            match answer {
                Ok(value) => 200 <= status < 300 && json_tree(value) == payload_of(
                    option_text(body),
                ),
                Err(e) => !(200 <= status < 300) && is_failure(
                    e,
                    status,
                    shown@,
                    error_message(payload_of(option_text(body))),
                ),
            },
    {
        let parsed = match &body {
            Some(text) => match parse_document(text.as_str()) {
                Ok(value) => Some(value),
                Err(_) => None,
            },
            None => None,
        };
        let payload = match parsed {
            Some(value) => value,
            None => object_value(Vec::new()),
        };
        self.answered(status, shown, payload)
    }

    /// What an answer means: its document where the status is a success, else
    /// the failure that any other caller would have seen. `shown` is the
    /// status as it is displayed.
    pub fn answered(&self, status: u16, shown: &str, payload: serde_json::Value) -> (answer: Result<
        serde_json::Value,
    >)
        ensures
            match answer {
                Ok(value) => 200 <= status < 300 && value == payload,
                Err(e) => !(200 <= status < 300) && is_failure(
                    e,
                    status,
                    shown@,
                    error_message(json_tree(payload)),
                ),
            },
    {
        if 200 <= status && status < 300 {
            return Ok(payload);
        }
        let found = match get_field(&payload, "error") {
            Some(error) => text_field(error, "message"),
            None => None,
        };
        let message = match found {
            Some(message) => message,
            None => "request failed".to_owned(),
        };
        Err(
            if status == 400 {
                RaError::Validation(message)
            } else if status == 401 {
                RaError::Unauthorized(message)
            } else if status == 403 {
                RaError::Forbidden(message)
            } else if status == 404 {
                RaError::NotFound(message)
            } else if status == 409 {
                RaError::Conflict(message)
            } else {
                let mut sentence = "daemon returned ".to_owned();
                sentence.append(shown);
                sentence.append(": ");
                sentence.append(message.as_str());
                RaError::Internal(sentence)
            },
        )
    }

    /// The document of a save.
    pub fn save_body(&self, request: &SaveRequest) -> (body: serde_json::Value)
        ensures
            json_tree(body) == save_tree(*request),
    {
        let mut fields: Vec<(String, serde_json::Value)> = Vec::new();
        fields.push(("content".to_owned(), text_value(request.content.as_str())));
        fields.push(("tags".to_owned(), texts_value(&request.tags)));
        match &request.category {
            Some(category) => fields.push(("category".to_owned(), text_value(category.as_str()))),
            None => {},
        }
        match &request.client {
            Some(client) => fields.push(("client".to_owned(), text_value(client.as_str()))),
            None => {},
        }
        proof {
            reveal_with_fuel(fields_upto, 5);
        }
        object_value(fields)
    }

    /// What a save came to: the one memory, stored as sent.
    pub fn saved(&self, answer: &serde_json::Value) -> (outcome: Result<SaveOutcome>)
        ensures
            match outcome {
                Ok(o) => !o.understanding && o.memories@.len() == 1 && is_answered(
                    o.memories@[0],
                    json_tree(*answer),
                ),
                Err(e) => e is Internal && memory_complaint(json_tree(*answer)) == Some(e.text()),
            },
    {
        match parse_memory(answer) {
            Ok(memory) => {
                let mut memories: Vec<ToolMemory> = Vec::new();
                memories.push(memory);
                Ok(SaveOutcome { memories, understanding: false })
            },
            Err(e) => Err(e),
        }
    }

    /// The document of a recall.
    pub fn recall_body(&self, request: &RecallRequest) -> (body: serde_json::Value)
        ensures
            json_tree(body) == recall_tree(*request),
    {
        let mut fields: Vec<(String, serde_json::Value)> = Vec::new();
        fields.push(("query".to_owned(), text_value(request.query.as_str())));
        fields.push(("categories".to_owned(), texts_value(&request.categories)));
        match request.limit {
            Some(limit) => fields.push(("limit".to_owned(), number_value(limit as u64))),
            None => {},
        }
        proof {
            reveal_with_fuel(fields_upto, 4);
        }
        object_value(fields)
    }

    /// The memories that a search found, in order; the first that does not
    /// read as one is an error.
    pub fn recalled(&self, answer: &serde_json::Value) -> (memories: Result<Vec<ToolMemory>>)
        ensures
            match memories {
                Ok(list) => first_complaint(answered_results(json_tree(*answer))) is None
                    && list@.len() == answered_results(json_tree(*answer)).len() && forall|i: int|
                    0 <= i < list@.len() ==> is_answered(
                        #[trigger] list@[i],
                        answered_results(json_tree(*answer))[i],
                    ),
                Err(e) => e is Internal && first_complaint(answered_results(json_tree(*answer)))
                    == Some(e.text()),
            },
    {
        let ghost trees = answered_results(json_tree(*answer));
        let mut list: Vec<ToolMemory> = Vec::new();
        let items = match get_field(answer, "results") {
            Some(field) => match value_items(field) {
                Some(items) => items,
                None => return Ok(list),
            },
            None => return Ok(list),
        };
        assert(trees == json_trees(items@));
        let mut i: usize = 0;
        assert(trees.take(0) =~= Seq::empty());
        while i < items.len()
            invariant
                0 <= i <= items@.len(),
                trees == json_trees(items@),
                trees == answered_results(json_tree(*answer)),
                list@.len() == i,
                first_complaint(trees.take(i as int)) is None,
                forall|j: int| 0 <= j < i ==> is_answered(#[trigger] list@[j], trees[j]),
            decreases items@.len() - i,
        {
            proof {
                assert(trees.take(i + 1).drop_last() =~= trees.take(i as int));
                assert(trees.take(i + 1).last() == json_tree(items@[i as int]));
            }
            match parse_memory(&items[i]) {
                Ok(memory) => list.push(memory),
                Err(e) => {
                    proof {
                        lemma_complaint_stays(trees, i + 1);
                    }
                    return Err(e);
                },
            }
            i += 1;
        }
        assert(trees.take(trees.len() as int) =~= trees);
        Ok(list)
    }

    /// The search that finds what may be deleted.
    pub fn candidates(&self, query: &str, limit: usize) -> (request: RecallRequest)
        ensures
            request.query@ == query@,
            request.categories@.len() == 0,
            request.limit == Some(limit),
    {
        RecallRequest { query: query.to_owned(), categories: Vec::new(), limit: Some(limit) }
    }

    /// The path of the next deletion; none, once all are done.
    pub fn next_deletion(&self, ids: &Vec<String>, deleted: usize) -> (path: Option<String>)
        ensures
            match path {
                Some(p) => deleted < ids@.len() && p@ == "/v1/memories/"@ + ids@[deleted as int]@,
                None => deleted >= ids@.len(),
            },
    {
        if deleted < ids.len() {
            let mut path = "/v1/memories/".to_owned();
            path.append(ids[deleted].as_str());
            Some(path)
        } else {
            None
        }
    }

    /// The profile, or why there is none.
    pub fn profile(&self, status: u16, shown: &str, body: String) -> (profile: Result<String>)
        ensures
            match profile {
                Ok(p) => 200 <= status < 300 && p == body,
                Err(e) => !(200 <= status < 300) && e is Internal && e.text() == "daemon returned "@
                    + shown@ + " for the profile"@,
            },
    {
        if 200 <= status && status < 300 {
            Ok(body)
        } else {
            let mut sentence = "daemon returned ".to_owned();
            sentence.append(shown);
            sentence.append(" for the profile");
            Err(RaError::Internal(sentence))
        }
    }
}

proof fn lemma_complaint_stays(trees: Seq<JsonTree>, n: int)
    requires
        0 <= n <= trees.len(),
        first_complaint(trees.take(n)) is Some,
    ensures
        first_complaint(trees) == first_complaint(trees.take(n)),
    decreases trees.len(),
{
    if n == trees.len() {
        assert(trees.take(n) =~= trees);
    } else {
        assert(trees.drop_last().take(n) =~= trees.take(n));
        lemma_complaint_stays(trees.drop_last(), n);
    }
}

/// A save sends what is to be saved: the content and the tags always, the
/// category and the client where they are given, and nothing else.
pub proof fn saves_send_what_is_saved(request: SaveRequest, key: Seq<char>)
    ensures
        ({
            let tree = save_tree(request);
            &&& field_of(tree, "content"@) == Some(JsonTree::Text(request.content@))
            &&& list_in(field_of(tree, "tags"@)) matches Some(tags) && tags.len()
                == request.tags@.len() && forall|i: int|
                0 <= i < tags.len() ==> #[trigger] tags[i] == JsonTree::Text(request.tags@[i]@)
            &&& request.category matches Some(c) ==> field_of(tree, "category"@) == Some(
                JsonTree::Text(c@),
            )
            &&& request.category is None ==> field_of(tree, "category"@) is None
            &&& request.client matches Some(c) ==> field_of(tree, "client"@) == Some(
                JsonTree::Text(c@),
            )
            &&& request.client is None ==> field_of(tree, "client"@) is None
            &&& field_of(tree, key) is Some ==> key == "content"@ || key == "tags"@ || key
                == "category"@ || key == "client"@
        }),
{
    reveal_strlit("content");
    reveal_strlit("tags");
    reveal_strlit("category");
    reveal_strlit("client");
    assert("content"@.len() == 7 && "tags"@.len() == 4);
    assert("category"@.len() == 8 && "client"@.len() == 6);
}

/// A recall sends what is asked: the query and the categories always, the limit
/// where it is given, and nothing else.
pub proof fn recalls_send_what_is_asked(request: RecallRequest, key: Seq<char>)
    ensures
        ({
            let tree = recall_tree(request);
            &&& field_of(tree, "query"@) == Some(JsonTree::Text(request.query@))
            &&& list_in(field_of(tree, "categories"@)) matches Some(names) && names.len()
                == request.categories@.len() && forall|i: int|
                0 <= i < names.len() ==> #[trigger] names[i] == JsonTree::Text(
                    request.categories@[i]@,
                )
            &&& request.limit matches Some(n) ==> field_of(tree, "limit"@) == Some(
                JsonTree::Number(JsonNumber::Unsigned(n as u64)),
            )
            &&& request.limit is None ==> field_of(tree, "limit"@) is None
            &&& field_of(tree, key) is Some ==> key == "query"@ || key == "categories"@ || key
                == "limit"@
        }),
{
    reveal_strlit("query");
    reveal_strlit("categories");
    reveal_strlit("limit");
    assert("query"@.len() == 5 && "query"@[0] == 'q');
    assert("limit"@.len() == 5 && "limit"@[0] == 'l');
    assert("categories"@.len() == 10);
}

/// An answered memory is what the document's fields say.
pub proof fn answers_are_read_field_by_field(memory: ToolMemory, tree: JsonTree)
    requires
        is_answered(memory, tree),
    ensures
        text_in(field_of(tree, "id"@)) == Some(memory.id@),
        text_in(field_of(tree, "content"@)) == Some(memory.content@),
        text_in(field_of(tree, "category"@)) == Some(memory.category@),
        texts(memory.tags@) == answered_tags(tree),
        text_in(field_of(tree, "created_at"@)) matches Some(raw) && rfc3339_instant(raw) == Some(
            memory.created_at.parts(),
        ),
        memory.score == double_in(field_of(tree, "score"@)),
{
}

/// A document is a memory if it names the four things that a memory has, the
/// last of them a time; the first that is missing is told.
pub proof fn documents_are_memories_by_their_fields(tree: JsonTree)
    ensures
        memory_complaint(tree) is None <==> text_in(field_of(tree, "id"@)) is Some && text_in(
            field_of(tree, "content"@),
        ) is Some && text_in(field_of(tree, "category"@)) is Some && (text_in(
            field_of(tree, "created_at"@),
        ) matches Some(raw) && rfc3339_instant(raw) is Some),
        text_in(field_of(tree, "id"@)) is None ==> memory_complaint(tree) == Some(missing("id"@)),
        text_in(field_of(tree, "id"@)) is Some && text_in(field_of(tree, "content"@)) is None
            ==> memory_complaint(tree) == Some(missing("content"@)),
{
}

/// A list of memories is refused for the first of them that is none, and
/// accepted where there is none such.
pub proof fn the_first_complaint_is_told(trees: Seq<JsonTree>)
    ensures
        match first_complaint(trees) {
            Some(complaint) => exists|i: int|
                0 <= i < trees.len() && memory_complaint(#[trigger] trees[i]) == Some(complaint)
                    && forall|j: int| 0 <= j < i ==> memory_complaint(#[trigger] trees[j]) is None,
            None => forall|i: int|
                0 <= i < trees.len() ==> memory_complaint(#[trigger] trees[i]) is None,
        },
    decreases trees.len(),
{
    if trees.len() > 0 {
        let shorter = trees.drop_last();
        the_first_complaint_is_told(shorter);
        match first_complaint(shorter) {
            Some(complaint) => {
                let i = choose|i: int|
                    0 <= i < shorter.len() && memory_complaint(#[trigger] shorter[i]) == Some(
                        complaint,
                    ) && forall|j: int|
                        0 <= j < i ==> memory_complaint(#[trigger] shorter[j]) is None;
                assert(trees[i] == shorter[i]);
                assert forall|j: int| 0 <= j < i implies memory_complaint(#[trigger] trees[j])
                    is None by {
                    assert(shorter[j] == trees[j]);
                }
            },
            None => {
                assert forall|i: int| 0 <= i < shorter.len() implies memory_complaint(
                    #[trigger] trees[i],
                ) is None by {
                    assert(shorter[i] == trees[i]);
                }
                let n = trees.len() - 1;
                if memory_complaint(trees.last()) is Some {
                    assert(trees[n] == trees.last());
                }
            },
        }
    }
}

/// Answered tags are the texts of the list, in order.
pub proof fn answered_tags_are_the_texts(trees: Seq<JsonTree>)
    ensures
        texts_among(trees) == trees.filter(|t: JsonTree| t is Text).map_values(
            |t: JsonTree| t->Text_0,
        ),
    decreases trees.len(),
{
    reveal(Seq::filter);
    let p = |t: JsonTree| t is Text;
    let f = |t: JsonTree| t->Text_0;
    if trees.len() > 0 {
        answered_tags_are_the_texts(trees.drop_last());
        if p(trees.last()) {
            let earlier = trees.drop_last().filter(p);
            assert(trees.filter(p).map_values(f) =~= earlier.map_values(f).push(f(trees.last())));
        }
    }
    assert(texts_among(trees) =~= trees.filter(p).map_values(f));
}

/// A failure is of the kind that its status stands for, and says what the
/// daemon said.
pub proof fn failures_go_by_their_status(
    error: RaError,
    status: u16,
    shown: Seq<char>,
    payload: JsonTree,
)
    requires
        is_failure(error, status, shown, error_message(payload)),
    ensures
        status == 400 <==> error is Validation,
        status == 401 <==> error is Unauthorized,
        status == 403 <==> error is Forbidden,
        status == 404 <==> error is NotFound,
        status == 409 <==> error is Conflict,
        !(error is Internal) ==> error.text() == error_message(payload),
        error is Internal ==> error.text() == "daemon returned "@ + shown + ": "@ + error_message(
            payload,
        ),
{
}

/// What the daemon said is the message of its error, where it has one.
pub proof fn messages_are_the_daemons(payload: JsonTree, error: JsonTree, message: Seq<char>)
    ensures
        field_of(payload, "error"@) == Some(error) && text_in(field_of(error, "message"@)) == Some(
            message,
        ) ==> error_message(payload) == message,
        field_of(payload, "error"@) is None ==> error_message(payload) == "request failed"@,
{
}

/// An answer that could not be had, or is not JSON, says nothing; one that is
/// says what it says. The results of a search are all that it lists.
pub proof fn answers_say_what_they_hold(text: Seq<char>, tree: JsonTree, key: Seq<char>)
    ensures
        json_parse(text) == Some(tree) ==> payload_of(Some(text)) == tree,
        json_parse(text) is None ==> field_of(payload_of(Some(text)), key) is None,
        field_of(payload_of(None), key) is None,
        list_in(field_of(tree, "results"@)) is None ==> answered_results(tree).len() == 0,
        list_in(field_of(tree, "results"@)) is Some ==> list_in(field_of(tree, "results"@)) == Some(
            answered_results(tree),
        ),
{
}

} // verus!
