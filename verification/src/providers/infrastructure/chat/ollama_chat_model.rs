//! Ollama's chat format: models on the operator's own hardware.
use super::openai_compat_chat_model::{
    conversation, message_content, messages, not_json, read_content,
};
use super::structured_text::RepairHint;
use super::transport::{classify_status, is_refusal};
use crate::json::{
    bool_value, copy_document, field_of, fields_upto, json_complaint, json_parse, json_tree,
    list_value, number_value, object_value, parse_document, text_field, text_in, text_value,
    JsonNumber, JsonTree,
};
use crate::text::{drop_end_while, is_char, trim_end_char};
use crate::understanding::domain::chat_model::{ChatError, ChatResult, StructuredRequest};
use vstd::prelude::*;
use vstd::string::StringExecFns;

verus! {

pub const DEFAULT_BASE_URL: &'static str = "http://127.0.0.1:11434";

/// A local model may take minutes for a few hundred tokens.
pub const LOCAL_TIMEOUT_SECONDS: u64 = 300;

/// The document of a request.
pub open spec fn ollama_tree(
    model: Seq<char>,
    request: StructuredRequest,
    repair: Option<RepairHint>,
) -> JsonTree {
    let options = Map::<Seq<char>, JsonTree>::empty().insert(
        "num_predict"@,
        JsonTree::Number(JsonNumber::Unsigned(request.max_tokens as u64)),
    );
    JsonTree::Object(
        Map::<Seq<char>, JsonTree>::empty().insert("model"@, JsonTree::Text(model)).insert(
            "messages"@,
            JsonTree::List(conversation(request, repair)),
        ).insert("stream"@, JsonTree::Bool(false)).insert(
            "format"@,
            json_tree(request.schema),
        ).insert("options"@, JsonTree::Object(options)),
    )
}

/// What is read out of an answer: the content of its message.
pub open spec fn is_extracted(body: Seq<char>, content: ChatResult<String>) -> bool {
    match json_parse(body) {
        None => content matches Err(e) && e is Malformed && e.text()
            == "response was not JSON: "@ + json_complaint(body),
        Some(tree) => match text_in(field_of(tree, "error"@)) {
            Some(error) => content matches Err(e) && e is Permanent && e.text() == "ollama: "@
                + error,
            None => match message_content(tree) {
                Some(text) => content matches Ok(c) && c@ == text,
                None => content matches Err(e) && e is Malformed && e.text()
                    == "the response contained no message"@,
            },
        },
    }
}

/// The content of the answered message. A missing model is reported with a
/// success status and an error in the document, and is named as what it is.
pub fn extract_message_content(body: &str) -> (content: ChatResult<String>)
    ensures
        is_extracted(body@, content),
{
    let parsed = match parse_document(body) {
        Ok(value) => value,
        Err(sentence) => return Err(not_json(sentence.as_str())),
    };
    match text_field(&parsed, "error") {
        Some(error) => {
            let mut sentence = "ollama: ".to_owned();
            sentence.append(error.as_str());
            return Err(ChatError::Permanent(sentence));
        },
        None => {},
    }
    match read_content(&parsed) {
        Some(content) => Ok(content),
        None => Err(ChatError::Malformed("the response contained no message".to_owned())),
    }
}

/// A model served by Ollama.
#[derive(Debug)]
pub struct OllamaChatModel {
    pub base_url: String,
    pub model: String,
}

impl OllamaChatModel {
    pub fn new(model: &str, base_url: &str) -> (chat: OllamaChatModel)
        ensures
            chat.model@ == model@,
            chat.base_url@ == drop_end_while(base_url@, is_char('/')),
    {
        OllamaChatModel { base_url: trim_end_char(base_url, '/'), model: model.to_owned() }
    }

    pub fn url(&self) -> (url: String)
        ensures
            url@ == self.base_url@ + "/api/chat"@,
    {
        let mut url = self.base_url.clone();
        url.append("/api/chat");
        url
    }

    /// The document of a request. The reply is not streamed: nobody reads it
    /// before it is whole.
    pub fn request_body(&self, request: &StructuredRequest, repair: &Option<RepairHint>) -> (body:
        serde_json::Value)
        ensures
            json_tree(body) == ollama_tree(self.model@, *request, *repair),
    {
        let mut options: Vec<(String, serde_json::Value)> = Vec::new();
        options.push(("num_predict".to_owned(), number_value(request.max_tokens as u64)));
        let ghost option_fields = options@;
        let mut fields: Vec<(String, serde_json::Value)> = Vec::new();
        fields.push(("model".to_owned(), text_value(self.model.as_str())));
        fields.push(("messages".to_owned(), list_value(messages(request, repair))));
        fields.push(("stream".to_owned(), bool_value(false)));
        fields.push(("format".to_owned(), copy_document(&request.schema)));
        fields.push(("options".to_owned(), object_value(options)));
        proof {
            reveal_with_fuel(fields_upto, 6);
            assert(fields_upto(option_fields, 1) == fields_upto(option_fields, option_fields.len()));
        }
        object_value(fields)
    }

    /// What an answer means.
    pub fn completed(&self, status: u16, body: &str) -> (content: ChatResult<String>)
        ensures
            if 200 <= status < 300 {
                is_extracted(body@, content)
            } else {
                content matches Err(e) && is_refusal(status, body@, e)
            },
    {
        if 200 <= status && status < 300 {
            extract_message_content(body)
        } else {
            Err(classify_status(status, body))
        }
    }
}

/// A request names the model, the conversation, the schema and the limit, and
/// wants its answer in one piece.
pub proof fn requests_name_what_is_asked(
    model: Seq<char>,
    request: StructuredRequest,
    repair: Option<RepairHint>,
)
    ensures
        ({
            let tree = ollama_tree(model, request, repair);
            &&& field_of(tree, "model"@) == Some(JsonTree::Text(model))
            &&& field_of(tree, "messages"@) == Some(JsonTree::List(conversation(request, repair)))
            &&& field_of(tree, "stream"@) == Some(JsonTree::Bool(false))
            &&& field_of(tree, "format"@) == Some(json_tree(request.schema))
            &&& field_of(tree, "options"@) matches Some(options) && field_of(
                options,
                "num_predict"@,
            ) == Some(JsonTree::Number(JsonNumber::Unsigned(request.max_tokens as u64)))
        }),
{
    reveal_strlit("model");
    reveal_strlit("messages");
    reveal_strlit("stream");
    reveal_strlit("format");
    reveal_strlit("options");
    assert("model"@.len() == 5 && "messages"@.len() == 8 && "options"@.len() == 7);
    assert("stream"@.len() == 6 && "format"@.len() == 6);
    assert("stream"@[0] == 's' && "format"@[0] == 'f');
}

/// What is read is the content of the message, unless the answer is an error.
pub proof fn the_message_is_read(body: Seq<char>, tree: JsonTree, content: ChatResult<String>)
    requires
        is_extracted(body, content),
        json_parse(body) == Some(tree),
    ensures
        content matches Ok(text) ==> field_of(tree, "message"@) matches Some(message) && text_in(
            field_of(message, "content"@),
        ) == Some(text@) && text_in(field_of(tree, "error"@)) is None,
        text_in(field_of(tree, "error"@)) matches Some(error) ==> content matches Err(e) && e
            is Permanent && e.text() == "ollama: "@ + error,
{
}

} // verus!
