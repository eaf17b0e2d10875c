//! The chat-completions format, which most providers speak.
//!
//! The schema is asked for and never relied on: it is spelled out in the
//! prompt as well, for servers that ignore the field.
use super::structured_text::RepairHint;
use super::transport::{bearer, classify_status, is_refusal};
use crate::json::{
    bool_value, copy_document, field_of, fields_upto, get_field, json_complaint, json_parse,
    json_pretty, json_tree, json_trees, list_in, list_value, number_value, object_value,
    parse_document, pretty_document, text_field, text_in, text_value, value_items, JsonNumber,
    JsonTree,
};
use crate::text::{drop_end_while, is_char, same_text, trim_end_char};
use crate::understanding::domain::chat_model::{ChatError, ChatResult, StructuredRequest};
use vstd::prelude::*;
use vstd::string::StringExecFns;

verus! {

pub const DEFAULT_BASE_URL: &'static str = "https://api.openai.com/v1";

/// Google's endpoint for the same format.
pub const GEMINI_BASE_URL: &'static str =
    "https://generativelanguage.googleapis.com/v1beta/openai";

pub const TRUNCATED: &'static str =
    "the reply was truncated by the token limit. Raise max_tokens or reduce the amount of text sent per job.";

/// The system prompt with the schema behind it.
pub open spec fn prompt_with_schema(request: StructuredRequest) -> Seq<char> {
    request.system@
        + "\n\nReply with a single JSON value and nothing else \u{2014} no prose, no markdown fences. It must conform to this JSON Schema:\n\n"@
        + json_pretty(json_tree(request.schema))
}

/// A turn of the conversation.
pub open spec fn turn_tree(role: Seq<char>, content: Seq<char>) -> JsonTree {
    JsonTree::Object(
        Map::<Seq<char>, JsonTree>::empty().insert("role"@, JsonTree::Text(role)).insert(
            "content"@,
            JsonTree::Text(content),
        ),
    )
}

/// The turns that a repair adds: the bad reply as the assistant turn it was,
/// and the complaint about it.
pub open spec fn repair_turns(repair: Option<RepairHint>) -> Seq<JsonTree> {
    match repair {
        Some(hint) => seq![
            turn_tree("assistant"@, hint.previous_output@),
            turn_tree("user"@, hint.turn()),
        ],
        None => Seq::empty(),
    }
}

/// The conversation: the prompt with the schema, the question, and what a
/// repair adds.
pub open spec fn conversation(request: StructuredRequest, repair: Option<RepairHint>) -> Seq<
    JsonTree,
> {
    seq![
        turn_tree("system"@, prompt_with_schema(request)),
        turn_tree("user"@, request.user@),
    ] + repair_turns(repair)
}

/// The document of a request.
pub open spec fn openai_tree(
    model: Seq<char>,
    request: StructuredRequest,
    repair: Option<RepairHint>,
) -> JsonTree {
    let schema = Map::<Seq<char>, JsonTree>::empty().insert(
        "name"@,
        JsonTree::Text(request.schema_name@),
    ).insert("schema"@, json_tree(request.schema)).insert("strict"@, JsonTree::Bool(false));
    let format = Map::<Seq<char>, JsonTree>::empty().insert(
        "type"@,
        JsonTree::Text("json_schema"@),
    ).insert("json_schema"@, JsonTree::Object(schema));
    JsonTree::Object(
        Map::<Seq<char>, JsonTree>::empty().insert("model"@, JsonTree::Text(model)).insert(
            "max_tokens"@,
            JsonTree::Number(JsonNumber::Unsigned(request.max_tokens as u64)),
        ).insert("messages"@, JsonTree::List(conversation(request, repair))).insert(
            "response_format"@,
            JsonTree::Object(format),
        ),
    )
}

pub fn system_with_schema(request: &StructuredRequest) -> (prompt: String)
    ensures
        prompt@ == prompt_with_schema(*request),
{
    let mut prompt = request.system.clone();
    prompt.append(
        "\n\nReply with a single JSON value and nothing else \u{2014} no prose, no markdown fences. It must conform to this JSON Schema:\n\n",
    );
    prompt.append(pretty_document(&request.schema).as_str());
    prompt
}

/// A turn of the conversation.
pub fn turn(role: &str, content: &str) -> (value: serde_json::Value)
    ensures
        json_tree(value) == turn_tree(role@, content@),
{
    let mut fields: Vec<(String, serde_json::Value)> = Vec::new();
    fields.push(("role".to_owned(), text_value(role)));
    fields.push(("content".to_owned(), text_value(content)));
    proof {
        reveal_with_fuel(fields_upto, 3);
    }
    object_value(fields)
}

/// The turns with what a repair adds.
pub fn with_repair(turns: Vec<serde_json::Value>, repair: &Option<RepairHint>) -> (all: Vec<
    serde_json::Value,
>)
    ensures
        json_trees(all@) == json_trees(turns@) + repair_turns(*repair),
{
    let mut all = turns;
    match repair {
        Some(hint) => {
            all.push(turn("assistant", hint.previous_output.as_str()));
            all.push(turn("user", hint.as_message().as_str()));
        },
        None => {},
    }
    assert(json_trees(all@) =~= json_trees(turns@) + repair_turns(*repair));
    all
}

/// The conversation of a request.
pub fn messages(request: &StructuredRequest, repair: &Option<RepairHint>) -> (turns: Vec<
    serde_json::Value,
>)
    ensures
        json_trees(turns@) == conversation(*request, *repair),
{
    let mut turns: Vec<serde_json::Value> = Vec::new();
    turns.push(turn("system", system_with_schema(request).as_str()));
    turns.push(turn("user", request.user.as_str()));
    assert(json_trees(turns@) =~= seq![
        turn_tree("system"@, prompt_with_schema(*request)),
        turn_tree("user"@, request.user@),
    ]);
    with_repair(turns, repair)
}

/// The first choice of an answer, if it has one.
pub open spec fn first_choice(tree: JsonTree) -> Option<JsonTree> {
    match list_in(field_of(tree, "choices"@)) {
        Some(choices) => if choices.len() > 0 {
            Some(choices[0])
        } else {
            None
        },
        None => None,
    }
}

/// The content of the message of an answer or of a choice.
pub open spec fn message_content(tree: JsonTree) -> Option<Seq<char>> {
    match field_of(tree, "message"@) {
        Some(message) => text_in(field_of(message, "content"@)),
        None => None,
    }
}

/// Whether a choice was cut off by the token limit.
pub open spec fn is_cut_off(choice: JsonTree) -> bool {
    text_in(field_of(choice, "finish_reason"@)) == Some("length"@)
}

pub fn read_content(value: &serde_json::Value) -> (content: Option<String>)
    ensures
        crate::memories::domain::memory::option_text(content) == message_content(
            json_tree(*value),
        ),
{
    match get_field(value, "message") {
        Some(message) => text_field(message, "content"),
        None => None,
    }
}

/// The answer is not JSON at all.
pub fn not_json(sentence: &str) -> (error: ChatError)
    ensures
        error is Malformed,
        error.text() == "response was not JSON: "@ + sentence@,
{
    let mut whole = "response was not JSON: ".to_owned();
    whole.append(sentence);
    ChatError::Malformed(whole)
}

/// What is read out of an answer: the content of its first choice.
pub open spec fn is_extracted(body: Seq<char>, content: ChatResult<String>) -> bool {
    match json_parse(body) {
        None => content matches Err(e) && e is Malformed && e.text()
            == "response was not JSON: "@ + json_complaint(body),
        Some(tree) => match first_choice(tree) {
            None => content matches Err(e) && e is Malformed && e.text()
                == "the response contained no choices"@,
            Some(choice) => if is_cut_off(choice) {
                content matches Err(e) && e is Permanent && e.text() == TRUNCATED@
            } else {
                match message_content(choice) {
                    Some(text) => content matches Ok(c) && c@ == text,
                    None => content matches Err(e) && e is Malformed && e.text()
                        == "the choice contained no message content"@,
                }
            },
        },
    }
}

/// The content of the first choice. A reply cut off by the token limit is
/// permanent: repairing it would only ask with a longer prompt.
pub fn extract_message_content(body: &str) -> (content: ChatResult<String>)
    ensures
        is_extracted(body@, content),
{
    let parsed = match parse_document(body) {
        Ok(value) => value,
        Err(sentence) => return Err(not_json(sentence.as_str())),
    };
    let choices = match get_field(&parsed, "choices") {
        Some(field) => value_items(field),
        None => None,
    };
    let first = match choices {
        Some(list) => if list.len() > 0 {
            Some(&list[0])
        } else {
            None
        },
        None => None,
    };
    let choice = match first {
        Some(choice) => choice,
        None => return Err(
            ChatError::Malformed("the response contained no choices".to_owned()),
        ),
    };
    assert(first_choice(json_tree(parsed)) == Some(json_tree(*choice)));
    match text_field(choice, "finish_reason") {
        Some(reason) => if same_text(reason.as_str(), "length") {
            return Err(ChatError::Permanent(TRUNCATED.to_owned()));
        },
        None => {},
    }
    match read_content(choice) {
        Some(content) => Ok(content),
        None => Err(ChatError::Malformed("the choice contained no message content".to_owned())),
    }
}

/// A provider that speaks chat completions.
#[derive(Debug)]
pub struct OpenAiCompatChatModel {
    pub base_url: String,
    pub api_key: String,
    pub model: String,
}

impl OpenAiCompatChatModel {
    pub fn new(model: &str, api_key: &str, base_url: &str) -> (chat: OpenAiCompatChatModel)
        ensures
            chat.model@ == model@,
            chat.api_key@ == api_key@,
            chat.base_url@ == drop_end_while(base_url@, is_char('/')),
    {
        OpenAiCompatChatModel {
            base_url: trim_end_char(base_url, '/'),
            api_key: api_key.to_owned(),
            model: model.to_owned(),
        }
    }

    pub fn url(&self) -> (url: String)
        ensures
            url@ == self.base_url@ + "/chat/completions"@,
    {
        let mut url = self.base_url.clone();
        url.append("/chat/completions");
        url
    }

    /// The headers of a request: the key as a bearer token.
    pub fn headers(&self) -> (headers: Vec<(String, String)>)
        ensures
            headers@.len() == 1,
            headers@[0].0@ == "authorization"@,
            headers@[0].1@ == "Bearer "@ + self.api_key@,
    {
        let mut headers: Vec<(String, String)> = Vec::new();
        headers.push(bearer(self.api_key.as_str()));
        headers
    }

    /// The document of a request.
    pub fn request_body(&self, request: &StructuredRequest, repair: &Option<RepairHint>) -> (body:
        serde_json::Value)
        ensures
            json_tree(body) == openai_tree(self.model@, *request, *repair),
    {
        let mut schema: Vec<(String, serde_json::Value)> = Vec::new();
        schema.push(("name".to_owned(), text_value(request.schema_name.as_str())));
        schema.push(("schema".to_owned(), copy_document(&request.schema)));
        schema.push(("strict".to_owned(), bool_value(false)));
        let ghost schema_fields = schema@;
        let mut format: Vec<(String, serde_json::Value)> = Vec::new();
        format.push(("type".to_owned(), text_value("json_schema")));
        format.push(("json_schema".to_owned(), object_value(schema)));
        let ghost format_fields = format@;
        let mut fields: Vec<(String, serde_json::Value)> = Vec::new();
        fields.push(("model".to_owned(), text_value(self.model.as_str())));
        fields.push(("max_tokens".to_owned(), number_value(request.max_tokens as u64)));
        fields.push(("messages".to_owned(), list_value(messages(request, repair))));
        fields.push(("response_format".to_owned(), object_value(format)));
        proof {
            reveal_with_fuel(fields_upto, 5);
            assert(fields_upto(schema_fields, 3) == fields_upto(schema_fields, schema_fields.len()));
            assert(fields_upto(format_fields, 2) == fields_upto(format_fields, format_fields.len()));
        }
        object_value(fields)
    }

    /// What an answer means.
    pub fn completed(&self, status: u16, body: &str) -> (content: ChatResult<String>)
        ensures
            if 200 <= status < 300 {
                is_extracted(body@, content)
            } else {
                content matches Err(e) && is_refusal(status, body@, e)
            },
    {
        if 200 <= status && status < 300 {
            extract_message_content(body)
        } else {
            Err(classify_status(status, body))
        }
    }
}

/// A conversation is the prompt with the schema, the question, and, for a
/// repair, the bad reply and what was wrong with it, in this order.
pub proof fn conversations_go_turn_by_turn(request: StructuredRequest, hint: RepairHint)
    ensures
        conversation(request, None) == seq![
            turn_tree("system"@, prompt_with_schema(request)),
            turn_tree("user"@, request.user@),
        ],
        conversation(request, Some(hint)) == seq![
            turn_tree("system"@, prompt_with_schema(request)),
            turn_tree("user"@, request.user@),
            turn_tree("assistant"@, hint.previous_output@),
            turn_tree("user"@, hint.turn()),
        ],
        request.system@.is_prefix_of(prompt_with_schema(request)),
        crate::text::has_part(prompt_with_schema(request), json_pretty(json_tree(request.schema))),
{
    assert(conversation(request, None) =~= seq![
        turn_tree("system"@, prompt_with_schema(request)),
        turn_tree("user"@, request.user@),
    ]);
    assert(conversation(request, Some(hint)) =~= seq![
        turn_tree("system"@, prompt_with_schema(request)),
        turn_tree("user"@, request.user@),
        turn_tree("assistant"@, hint.previous_output@),
        turn_tree("user"@, hint.turn()),
    ]);
    let prompt = prompt_with_schema(request);
    assert(request.system@ =~= prompt.subrange(0, request.system@.len() as int));
    let schema = json_pretty(json_tree(request.schema));
    let before = prompt.take(prompt.len() - schema.len());
    let nothing = Seq::<char>::empty();
    crate::text::parts_are_had(before, schema, nothing);
    assert(before + schema + nothing =~= prompt);
}

/// A turn names who speaks and what is said.
pub proof fn turns_name_their_speaker(role: Seq<char>, content: Seq<char>)
    ensures
        text_in(field_of(turn_tree(role, content), "role"@)) == Some(role),
        text_in(field_of(turn_tree(role, content), "content"@)) == Some(content),
{
    reveal_strlit("role");
    reveal_strlit("content");
    assert("role"@.len() == 4 && "content"@.len() == 7);
}

/// A request names the model, the limit, the conversation and the schema.
pub proof fn requests_name_what_is_asked(
    model: Seq<char>,
    request: StructuredRequest,
    repair: Option<RepairHint>,
)
    ensures
        ({
            let tree = openai_tree(model, request, repair);
            &&& text_in(field_of(tree, "model"@)) == Some(model)
            &&& crate::json::unsigned_in(field_of(tree, "max_tokens"@)) == Some(request.max_tokens as u64)
            &&& list_in(field_of(tree, "messages"@)) == Some(conversation(request, repair))
            &&& field_of(tree, "response_format"@) matches Some(format) && field_of(
                format,
                "json_schema"@,
            ) matches Some(wanted) && field_of(wanted, "schema"@) == Some(
                json_tree(request.schema),
            ) && text_in(field_of(wanted, "name"@)) == Some(request.schema_name@)
        }),
{
    reveal_strlit("model");
    reveal_strlit("max_tokens");
    reveal_strlit("messages");
    reveal_strlit("response_format");
    reveal_strlit("type");
    reveal_strlit("json_schema");
    reveal_strlit("name");
    reveal_strlit("schema");
    reveal_strlit("strict");
    assert("model"@.len() == 5 && "max_tokens"@.len() == 10 && "messages"@.len() == 8);
    assert("response_format"@.len() == 15 && "type"@.len() == 4 && "json_schema"@.len() == 11);
    assert("name"@.len() == 4 && "schema"@.len() == 6 && "strict"@.len() == 6);
    assert("schema"@[1] == 'c' && "strict"@[1] == 't');
}

/// What is read is the content of the first choice, unless the limit cut it off.
pub proof fn the_first_choice_is_read(
    body: Seq<char>,
    tree: JsonTree,
    choices: Seq<JsonTree>,
    content: ChatResult<String>,
)
    requires
        is_extracted(body, content),
        json_parse(body) == Some(tree),
        list_in(field_of(tree, "choices"@)) == Some(choices),
    ensures
        content matches Ok(text) ==> choices.len() > 0 && (field_of(
            choices[0],
            "message"@,
        ) matches Some(message) && text_in(field_of(message, "content"@)) == Some(text@)),
        content is Ok ==> text_in(field_of(choices[0], "finish_reason"@)) != Some("length"@),
        choices.len() > 0 && text_in(field_of(choices[0], "finish_reason"@)) == Some("length"@)
            ==> (content matches Err(e) && e is Permanent),
        choices.len() == 0 ==> content is Err,
{
}

} // verus!
