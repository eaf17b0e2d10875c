//! The messages format of Anthropic, with a forced tool call.
//!
//! One tool is declared whose input schema is the schema of the answer, and
//! the model is made to call it: that works on every model, old ones as well.
use super::openai_compat_chat_model::{not_json, repair_turns, turn, turn_tree, with_repair};
use super::structured_text::RepairHint;
use super::transport::{classify_status, is_refusal};
use crate::json::{
    compact_document, copy_document, field_of, fields_upto, get_field, json_compact,
    json_complaint, json_parse, json_tree, json_trees, list_in, list_value, number_value,
    object_value, parse_document, text_field, text_in, text_value, value_items, JsonNumber,
    JsonTree,
};
use crate::text::{drop_end_while, is_char, same_text, trim_end_char};
use crate::understanding::domain::chat_model::{ChatError, ChatResult, StructuredRequest};
use vstd::prelude::*;
use vstd::string::StringExecFns;

verus! {

pub const DEFAULT_BASE_URL: &'static str = "https://api.anthropic.com";

/// The version header, pinned so that the shape of an answer stays what it is.
pub const API_VERSION: &'static str = "2023-06-01";

/// The tool that the model is made to call.
pub const TOOL_NAME: &'static str = "record_result";

/// The conversation: the question, and what a repair adds.
pub open spec fn dialogue(request: StructuredRequest, repair: Option<RepairHint>) -> Seq<JsonTree> {
    seq![turn_tree("user"@, request.user@)] + repair_turns(repair)
}

/// The document of a request.
pub open spec fn anthropic_tree(
    model: Seq<char>,
    request: StructuredRequest,
    repair: Option<RepairHint>,
) -> JsonTree {
    let tool = Map::<Seq<char>, JsonTree>::empty().insert(
        "name"@,
        JsonTree::Text(TOOL_NAME@),
    ).insert(
        "description"@,
        JsonTree::Text("Record the "@ + request.schema_name@ + " result."@),
    ).insert("input_schema"@, json_tree(request.schema));
    let choice = Map::<Seq<char>, JsonTree>::empty().insert(
        "type"@,
        JsonTree::Text("tool"@),
    ).insert("name"@, JsonTree::Text(TOOL_NAME@));
    JsonTree::Object(
        Map::<Seq<char>, JsonTree>::empty().insert("model"@, JsonTree::Text(model)).insert(
            "max_tokens"@,
            JsonTree::Number(JsonNumber::Unsigned(request.max_tokens as u64)),
        ).insert("system"@, JsonTree::Text(request.system@)).insert(
            "messages"@,
            JsonTree::List(dialogue(request, repair)),
        ).insert("tools"@, JsonTree::List(seq![JsonTree::Object(tool)])).insert(
            "tool_choice"@,
            JsonTree::Object(choice),
        ),
    )
}

/// The first of the blocks that is a tool call, if there is one.
pub open spec fn first_call(blocks: Seq<JsonTree>) -> Option<JsonTree>
    decreases blocks.len(),
{
    if blocks.len() == 0 {
        None
    } else if text_in(field_of(blocks[0], "type"@)) == Some("tool_use"@) {
        Some(blocks[0])
    } else {
        first_call(blocks.drop_first())
    }
}

/// The input of the first tool call of an answer, if it has one.
pub open spec fn called_with(tree: JsonTree) -> Option<JsonTree> {
    match list_in(field_of(tree, "content"@)) {
        Some(blocks) => match first_call(blocks) {
            Some(block) => field_of(block, "input"@),
            None => None,
        },
        None => None,
    }
}

/// Why the model stopped, as it says.
pub open spec fn stop_reason(tree: JsonTree) -> Seq<char> {
    match text_in(field_of(tree, "stop_reason"@)) {
        Some(reason) => reason,
        None => "unknown"@,
    }
}

pub open spec fn no_call(reason: Seq<char>) -> Seq<char> {
    "the response contained no tool_use block (stop_reason: "@ + reason + ")"@
}

fn find_call<'a>(blocks: &'a Vec<serde_json::Value>) -> (block: Option<&'a serde_json::Value>)
    ensures
        match block {
            Some(b) => first_call(json_trees(blocks@)) == Some(json_tree(*b)),
            None => first_call(json_trees(blocks@)) is None,
        },
{
    let ghost trees = json_trees(blocks@);
    let mut i: usize = 0;
    assert(trees.skip(0) =~= trees);
    while i < blocks.len()
        invariant
            0 <= i <= blocks@.len(),
            trees == json_trees(blocks@),
            first_call(trees) == first_call(trees.skip(i as int)),
        decreases blocks@.len() - i,
    {
        proof {
            assert(trees.skip(i as int)[0] == json_tree(blocks@[i as int]));
            assert(trees.skip(i as int).drop_first() =~= trees.skip(i + 1));
        }
        match text_field(&blocks[i], "type") {
            Some(kind) => if same_text(kind.as_str(), "tool_use") {
                return Some(&blocks[i]);
            },
            None => {},
        }
        i += 1;
    }
    assert(trees.skip(trees.len() as int) =~= Seq::empty());
    None
}

/// What is read out of an answer: the input of its tool call.
pub open spec fn is_extracted(body: Seq<char>, input: ChatResult<String>) -> bool {
    match json_parse(body) {
        None => input matches Err(e) && e is Malformed && e.text()
            == "response was not JSON: "@ + json_complaint(body),
        Some(tree) => match called_with(tree) {
            Some(document) => input matches Ok(text) && text@ == json_compact(document),
            None => if stop_reason(tree) == "max_tokens"@ {
                input matches Err(e) && e is Permanent && e.text() == no_call(stop_reason(tree))
                    + ". Raise max_tokens or reduce the amount of text sent per job."@
            } else {
                input matches Err(e) && e is Malformed && e.text() == no_call(
                    stop_reason(tree),
                )
            },
        },
    }
}

/// The input of the forced tool call, as text. An answer without one names
/// why the model stopped; running out of tokens is permanent.
pub fn extract_tool_input(body: &str) -> (input: ChatResult<String>)
    ensures
        is_extracted(body@, input),
{
    let parsed = match parse_document(body) {
        Ok(value) => value,
        Err(sentence) => return Err(not_json(sentence.as_str())),
    };
    let reason = match text_field(&parsed, "stop_reason") {
        Some(reason) => reason,
        None => "unknown".to_owned(),
    };
    let blocks = match get_field(&parsed, "content") {
        Some(field) => value_items(field),
        None => None,
    };
    let call = match blocks {
        Some(list) => find_call(list),
        None => None,
    };
    let found = match call {
        Some(block) => get_field(block, "input"),
        None => None,
    };
    match found {
        Some(value) => return Ok(compact_document(value)),
        None => {},
    }
    let mut sentence = "the response contained no tool_use block (stop_reason: ".to_owned();
    sentence.append(reason.as_str());
    sentence.append(")");
    if same_text(reason.as_str(), "max_tokens") {
        sentence.append(". Raise max_tokens or reduce the amount of text sent per job.");
        Err(ChatError::Permanent(sentence))
    } else {
        Err(ChatError::Malformed(sentence))
    }
}

/// A model of Anthropic's.
#[derive(Debug)]
pub struct AnthropicChatModel {
    pub base_url: String,
    pub api_key: String,
    pub model: String,
}

impl AnthropicChatModel {
    pub fn new(model: &str, api_key: &str, base_url: &str) -> (chat: AnthropicChatModel)
        ensures
            chat.model@ == model@,
            chat.api_key@ == api_key@,
            chat.base_url@ == drop_end_while(base_url@, is_char('/')),
    {
        AnthropicChatModel {
            base_url: trim_end_char(base_url, '/'),
            api_key: api_key.to_owned(),
            model: model.to_owned(),
        }
    }

    pub fn url(&self) -> (url: String)
        ensures
            url@ == self.base_url@ + "/v1/messages"@,
    {
        let mut url = self.base_url.clone();
        url.append("/v1/messages");
        url
    }

    /// The headers of a request: the key under a name of its own, and the
    /// version of the interface.
    pub fn headers(&self) -> (headers: Vec<(String, String)>)
        ensures
            headers@.len() == 2,
            headers@[0].0@ == "x-api-key"@,
            headers@[0].1@ == self.api_key@,
            headers@[1].0@ == "anthropic-version"@,
            headers@[1].1@ == API_VERSION@,
    {
        let mut headers: Vec<(String, String)> = Vec::new();
        headers.push(("x-api-key".to_owned(), self.api_key.clone()));
        headers.push(("anthropic-version".to_owned(), API_VERSION.to_owned()));
        headers
    }

    /// The document of a request.
    pub fn request_body(&self, request: &StructuredRequest, repair: &Option<RepairHint>) -> (body:
        serde_json::Value)
        ensures
            json_tree(body) == anthropic_tree(self.model@, *request, *repair),
    {
        let mut description = "Record the ".to_owned();
        description.append(request.schema_name.as_str());
        description.append(" result.");
        let mut tool: Vec<(String, serde_json::Value)> = Vec::new();
        tool.push(("name".to_owned(), text_value(TOOL_NAME)));
        tool.push(("description".to_owned(), text_value(description.as_str())));
        tool.push(("input_schema".to_owned(), copy_document(&request.schema)));
        let ghost tool_fields = tool@;
        let mut choice: Vec<(String, serde_json::Value)> = Vec::new();
        choice.push(("type".to_owned(), text_value("tool")));
        choice.push(("name".to_owned(), text_value(TOOL_NAME)));
        let ghost choice_fields = choice@;
        let mut tools: Vec<serde_json::Value> = Vec::new();
        tools.push(object_value(tool));
        let ghost tool_values = tools@;
        let mut turns: Vec<serde_json::Value> = Vec::new();
        turns.push(turn("user", request.user.as_str()));
        assert(json_trees(turns@) =~= seq![turn_tree("user"@, request.user@)]);
        let mut fields: Vec<(String, serde_json::Value)> = Vec::new();
        fields.push(("model".to_owned(), text_value(self.model.as_str())));
        fields.push(("max_tokens".to_owned(), number_value(request.max_tokens as u64)));
        fields.push(("system".to_owned(), text_value(request.system.as_str())));
        fields.push(("messages".to_owned(), list_value(with_repair(turns, repair))));
        fields.push(("tools".to_owned(), list_value(tools)));
        fields.push(("tool_choice".to_owned(), object_value(choice)));
        proof {
            reveal_with_fuel(fields_upto, 7);
            assert(fields_upto(tool_fields, 3) == fields_upto(tool_fields, tool_fields.len()));
            assert(fields_upto(choice_fields, 2) == fields_upto(choice_fields, choice_fields.len()));
            assert(json_trees(tool_values) =~= seq![json_tree(tool_values[0])]);
        }
        object_value(fields)
    }

    /// What an answer means.
    pub fn completed(&self, status: u16, body: &str) -> (input: ChatResult<String>)
        ensures
            if 200 <= status < 300 {
                is_extracted(body@, input)
            } else {
                input matches Err(e) && is_refusal(status, body@, e)
            },
    {
        if 200 <= status && status < 300 {
            extract_tool_input(body)
        } else {
            Err(classify_status(status, body))
        }
    }
}

/// A request names the model, the limit, the prompt, the conversation, and the
/// one tool that has to be called, with the schema as its input.
pub proof fn requests_name_what_is_asked(
    model: Seq<char>,
    request: StructuredRequest,
    repair: Option<RepairHint>,
)
    ensures
        ({
            let tree = anthropic_tree(model, request, repair);
            &&& field_of(tree, "model"@) == Some(JsonTree::Text(model))
            &&& field_of(tree, "max_tokens"@) == Some(
                JsonTree::Number(JsonNumber::Unsigned(request.max_tokens as u64)),
            )
            &&& field_of(tree, "system"@) == Some(JsonTree::Text(request.system@))
            &&& field_of(tree, "messages"@) == Some(
                JsonTree::List(seq![turn_tree("user"@, request.user@)] + repair_turns(repair)),
            )
            &&& list_in(field_of(tree, "tools"@)) matches Some(tools) && tools.len() == 1
                && field_of(tools[0], "input_schema"@) == Some(json_tree(request.schema))
                && field_of(tools[0], "name"@) == Some(JsonTree::Text(TOOL_NAME@))
            &&& field_of(tree, "tool_choice"@) matches Some(choice) && field_of(choice, "name"@)
                == Some(JsonTree::Text(TOOL_NAME@))
        }),
{
    reveal_strlit("model");
    reveal_strlit("max_tokens");
    reveal_strlit("system");
    reveal_strlit("messages");
    reveal_strlit("tools");
    reveal_strlit("tool_choice");
    reveal_strlit("name");
    reveal_strlit("description");
    reveal_strlit("input_schema");
    reveal_strlit("type");
    assert("model"@.len() == 5 && "tools"@.len() == 5 && "model"@[0] == 'm' && "tools"@[0] == 't');
    assert("max_tokens"@.len() == 10 && "system"@.len() == 6 && "messages"@.len() == 8);
    assert("tool_choice"@.len() == 11 && "description"@.len() == 11);
    assert("name"@.len() == 4 && "type"@.len() == 4 && "name"@[0] == 'n' && "type"@[0] == 't');
    assert("input_schema"@.len() == 12);
}

/// The call that counts is the first block that is one.
pub proof fn the_first_call_counts(blocks: Seq<JsonTree>)
    ensures
        match first_call(blocks) {
            Some(block) => exists|i: int|
                0 <= i < blocks.len() && #[trigger] blocks[i] == block && text_in(
                    field_of(block, "type"@),
                ) == Some("tool_use"@) && forall|j: int|
                    0 <= j < i ==> text_in(field_of(#[trigger] blocks[j], "type"@)) != Some(
                        "tool_use"@,
                    ),
            None => forall|i: int|
                0 <= i < blocks.len() ==> text_in(field_of(#[trigger] blocks[i], "type"@)) != Some(
                    "tool_use"@,
                ),
        },
    decreases blocks.len(),
{
    if blocks.len() > 0 {
        let rest = blocks.drop_first();
        the_first_call_counts(rest);
        if text_in(field_of(blocks[0], "type"@)) != Some("tool_use"@) {
            match first_call(rest) {
                Some(block) => {
                    let i = choose|i: int|
                        0 <= i < rest.len() && #[trigger] rest[i] == block && text_in(
                            field_of(block, "type"@),
                        ) == Some("tool_use"@) && forall|j: int|
                            0 <= j < i ==> text_in(field_of(#[trigger] rest[j], "type"@)) != Some(
                                "tool_use"@,
                            );
                    assert(blocks[i + 1] == block);
                    assert forall|j: int| 0 <= j < i + 1 implies text_in(
                        field_of(#[trigger] blocks[j], "type"@),
                    ) != Some("tool_use"@) by {
                        if j > 0 {
                            assert(rest[j - 1] == blocks[j]);
                        }
                    }
                },
                None => {
                    assert forall|i: int| 0 <= i < blocks.len() implies text_in(
                        field_of(#[trigger] blocks[i], "type"@),
                    ) != Some("tool_use"@) by {
                        if i > 0 {
                            assert(rest[i - 1] == blocks[i]);
                        }
                    }
                },
            }
        }
    }
}

/// What is read is the input of the call; where there is none, the model is told
/// to have run out of room or to have answered badly.
pub proof fn the_input_of_the_call_is_read(body: Seq<char>, tree: JsonTree, input: ChatResult<String>)
    requires
        is_extracted(body, input),
        json_parse(body) == Some(tree),
    ensures
        input matches Ok(text) ==> list_in(field_of(tree, "content"@)) matches Some(blocks)
            && first_call(blocks) matches Some(block) && field_of(block, "input"@) matches Some(
            document,
        ) && text@ == json_compact(document),
        input matches Err(e) ==> called_with(tree) is None && (e is Permanent <==> text_in(
            field_of(tree, "stop_reason"@),
        ) == Some("max_tokens"@)),
{
    reveal_strlit("max_tokens");
    reveal_strlit("unknown");
    assert("max_tokens"@.len() == 10 && "unknown"@.len() == 7);
}

} // verus!
