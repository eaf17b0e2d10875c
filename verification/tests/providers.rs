//! Language models and embeddings: what is sent, and what answers mean.
use recuerdos_ai::memories::domain::embedder::EmbeddingTask;
use recuerdos_ai::providers::infrastructure::chat::anthropic_chat_model::{
    extract_tool_input, AnthropicChatModel,
};
use recuerdos_ai::providers::infrastructure::chat::ollama_chat_model::{self, OllamaChatModel};
use recuerdos_ai::providers::infrastructure::chat::openai_compat_chat_model::{
    self, system_with_schema, OpenAiCompatChatModel,
};
use recuerdos_ai::providers::infrastructure::chat::retrying_chat_model::{
    RetryStep, RetryingChatModel,
};
use recuerdos_ai::providers::infrastructure::chat::structured_text::{
    first_json_value, first_reply, second_reply, strip_code_fence, truncate_for_prompt, RepairHint,
    StructuredStep,
};
use recuerdos_ai::providers::infrastructure::chat::transport::{
    classify_status, classify_transport, key_from_env,
};
use recuerdos_ai::providers::infrastructure::embeddings::fastembed_embedder::{
    check_count, resolve_model, LocalModel,
};
use recuerdos_ai::providers::infrastructure::embeddings::gemini_embedder::{
    self, parse_embeddings, task_type, GeminiEmbedder,
};
use recuerdos_ai::providers::infrastructure::embeddings::remote_embedder::{
    extract_vector, parse_ollama, parse_openai, EmbeddingApi, RemoteEmbedder,
};
use recuerdos_ai::providers::infrastructure::embeddings::vectors::{provider_refusal, PROBE};
use recuerdos_ai::shared::error::{RaError, Result};
use recuerdos_ai::understanding::domain::chat_model::{ChatError, ChatResult, StructuredRequest};
use serde_json::Value;

fn json(text: &str) -> Value {
    serde_json::from_str(text).unwrap()
}

// ---- reading one provider's reply ----

#[test]
fn reads_the_forced_tool_call() {
    let body = json(
        r#"{
            "stop_reason": "tool_use",
            "content": [
                {"type": "text", "text": "Let me record that."},
                {"type": "tool_use", "name": "record_result", "input": {"candidates": []}}
            ]
        }"#,
    )
    .to_string();

    let extracted = extract_tool_input(&body).unwrap();
    assert_eq!(json(&extracted), json(r#"{"candidates": []}"#));
}

#[test]
fn a_truncated_response_names_the_cause_and_is_not_retried() {
    let body = json(r#"{"stop_reason": "max_tokens", "content": []}"#).to_string();
    let error = extract_tool_input(&body).unwrap_err();

    assert!(matches!(error, ChatError::Permanent(_)), "got {error:?}");
    assert!(error.message().contains("max_tokens"), "{error:?}");
}

#[test]
fn a_refusal_is_reported_with_its_stop_reason() {
    let body = json(r#"{"stop_reason": "refusal", "content": []}"#).to_string();
    let error = extract_tool_input(&body).unwrap_err();
    assert!(error.message().contains("refusal"), "{error:?}");
}

#[test]
fn reads_the_message_content() {
    let body = json(r#"{"message": {"role": "assistant", "content": "{\"a\": 1}"}}"#).to_string();
    assert_eq!(
        ollama_chat_model::extract_message_content(&body).unwrap(),
        "{\"a\": 1}"
    );
}

#[test]
fn a_two_hundred_with_an_error_field_is_reported_as_the_error_it_is() {
    let body =
        json(r#"{"error": "model \"llama9\" not found, try pulling it first"}"#).to_string();
    let error = ollama_chat_model::extract_message_content(&body).unwrap_err();

    assert!(matches!(error, ChatError::Permanent(_)), "got {error:?}");
    assert!(error.message().contains("not found"), "{error:?}");
}

#[test]
fn reads_the_first_choices_content() {
    let body =
        json(r#"{"choices": [{"finish_reason": "stop", "message": {"content": "{\"a\": 1}"}}]}"#)
            .to_string();
    assert_eq!(
        openai_compat_chat_model::extract_message_content(&body).unwrap(),
        "{\"a\": 1}"
    );
}

#[test]
fn a_truncated_reply_is_permanent_rather_than_sent_to_repair() {
    let body =
        json(r#"{"choices": [{"finish_reason": "length", "message": {"content": "{\"a\":"}}]}"#)
            .to_string();
    let error = openai_compat_chat_model::extract_message_content(&body).unwrap_err();
    assert!(matches!(error, ChatError::Permanent(_)), "got {error:?}");
}

#[test]
fn replies_of_another_shape_are_malformed() {
    for body in ["not json", "{}", r#"{"choices": []}"#, r#"{"choices": [{}]}"#] {
        assert!(matches!(
            openai_compat_chat_model::extract_message_content(body),
            Err(ChatError::Malformed(_))
        ));
    }
    for body in ["not json", "{}", r#"{"message": {}}"#] {
        assert!(matches!(
            ollama_chat_model::extract_message_content(body),
            Err(ChatError::Malformed(_))
        ));
    }
    assert!(matches!(
        extract_tool_input("not json"),
        Err(ChatError::Malformed(_))
    ));
}

#[test]
fn the_schema_reaches_the_prompt_for_servers_that_ignore_response_format() {
    let request = StructuredRequest::new(
        "Extract memories.",
        "some text",
        "candidates",
        json(r#"{"type": "array", "items": {"type": "object"}}"#),
    );
    let system = system_with_schema(&request);
    assert!(system.contains("Extract memories."));
    assert!(system.contains("\"array\""), "{system}");
}

// ---- all three providers ----

fn extraction() -> StructuredRequest {
    StructuredRequest::new(
        "You extract memories.",
        "I prefer pnpm.",
        "candidates",
        json(
            r#"{
                "type": "object",
                "properties": {"ok": {"type": "boolean"}},
                "required": ["ok"]
            }"#,
        ),
    )
}

const OK_JSON: &str = r#"{"ok": true}"#;
const PROSE: &str = "I'm not sure what you want here.";

/// A provider, and how it phrases a success.
struct Provider {
    name: &'static str,
    url: fn() -> String,
    body: fn(&Option<RepairHint>) -> Value,
    completed: fn(u16, &str) -> ChatResult<String>,
    success: fn(&str) -> String,
}

fn anthropic() -> AnthropicChatModel {
    AnthropicChatModel::new("a-model", "test-key", "http://host/")
}

fn openai() -> OpenAiCompatChatModel {
    OpenAiCompatChatModel::new("gpt-test", "test-key", "http://host/")
}

fn ollama() -> OllamaChatModel {
    OllamaChatModel::new("qwen3", "http://host/")
}

fn quoted(text: &str) -> String {
    Value::from(text).to_string()
}

fn providers() -> Vec<Provider> {
    vec![
        Provider {
            name: "anthropic",
            url: || anthropic().url(),
            body: |repair| anthropic().request_body(&extraction(), repair),
            completed: |status, body| anthropic().completed(status, body),
            success: |raw| match serde_json::from_str::<Value>(raw) {
                Ok(input) => format!(
                    r#"{{"stop_reason": "tool_use", "content": [{{"type": "tool_use", "name": "record_result", "input": {input}}}]}}"#
                ),
                Err(_) => format!(
                    r#"{{"stop_reason": "end_turn", "content": [{{"type": "text", "text": {}}}]}}"#,
                    quoted(raw)
                ),
            },
        },
        Provider {
            name: "openai-compat",
            url: || openai().url(),
            body: |repair| openai().request_body(&extraction(), repair),
            completed: |status, body| openai().completed(status, body),
            success: |raw| {
                format!(
                    r#"{{"choices": [{{"finish_reason": "stop", "message": {{"role": "assistant", "content": {}}}}}]}}"#,
                    quoted(raw)
                )
            },
        },
        Provider {
            name: "ollama",
            url: || ollama().url(),
            body: |repair| ollama().request_body(&extraction(), repair),
            completed: |status, body| ollama().completed(status, body),
            success: |raw| {
                format!(
                    r#"{{"message": {{"role": "assistant", "content": {}}}}}"#,
                    quoted(raw)
                )
            },
        },
    ]
}

/// Asks a provider that answers each call in turn; also counts the calls.
fn complete(provider: &Provider, answers: &[(u16, String)]) -> (ChatResult<Value>, usize) {
    let (status, body) = &answers[0];
    match first_reply((provider.completed)(*status, body)) {
        StructuredStep::Done(answer) => (answer, 1),
        StructuredStep::Repair(hint) => {
            let (status, body) = &answers[1];
            let answer = second_reply(&hint, (provider.completed)(*status, body));
            (answer, 2)
        }
    }
}

#[test]
fn a_successful_call_returns_the_models_json() {
    for provider in providers() {
        let (value, calls) = complete(&provider, &[(200, (provider.success)(OK_JSON))]);
        assert_eq!(value.unwrap(), json(OK_JSON), "{}", provider.name);
        assert_eq!(calls, 1);
    }
}

#[test]
fn rate_limits_and_server_errors_are_retryable() {
    for status in [429u16, 500, 502, 503] {
        for provider in providers() {
            let (answer, _) = complete(&provider, &[(status, "slow down".to_string())]);
            let error = answer.unwrap_err();
            assert!(
                matches!(error, ChatError::Transient(_)),
                "{} on HTTP {status}: expected Transient, got {error:?}",
                provider.name
            );
        }
    }
}

#[test]
fn credential_and_request_errors_are_permanent() {
    for status in [400u16, 401, 403, 404] {
        for provider in providers() {
            let (answer, _) = complete(&provider, &[(status, "nope".to_string())]);
            let error = answer.unwrap_err();
            assert!(
                matches!(error, ChatError::Permanent(_)),
                "{} on HTTP {status}: expected Permanent, got {error:?}",
                provider.name
            );
            assert!(
                error.message().contains(&status.to_string()),
                "{}: the status should survive into the message: {error:?}",
                provider.name
            );
        }
    }
}

#[test]
fn each_provider_authenticates_the_way_its_api_expects() {
    let pairs = |headers: Vec<(String, String)>| -> Vec<String> {
        headers
            .into_iter()
            .map(|(name, value)| format!("{name}: {value}"))
            .collect()
    };
    assert_eq!(
        pairs(anthropic().headers()),
        vec!["x-api-key: test-key", "anthropic-version: 2023-06-01"]
    );
    assert_eq!(
        pairs(openai().headers()),
        vec!["authorization: Bearer test-key"]
    );
    let (anthropic_reply, _) = complete(
        &providers()[0],
        &[(
            200,
            r#"{"stop_reason": "tool_use", "content": [{"type": "tool_use", "input": {"ok": true}}]}"#
                .to_string(),
        )],
    );
    assert_eq!(anthropic_reply.unwrap(), json(OK_JSON));
    let (openai_reply, _) = complete(
        &providers()[1],
        &[(
            200,
            r#"{"choices": [{"message": {"content": "{\"ok\": true}"}}]}"#.to_string(),
        )],
    );
    assert_eq!(openai_reply.unwrap(), json(OK_JSON));

    let remote = |key: Option<&str>| {
        RemoteEmbedder::new(
            EmbeddingApi::OpenAiCompat,
            "m",
            "http://host",
            key.map(|k| k.to_string()),
        )
        .headers()
    };
    assert_eq!(
        pairs(remote(Some("sk-test"))),
        vec!["authorization: Bearer sk-test"]
    );
    assert!(remote(None).is_empty());
    assert_eq!(
        pairs(gemini("text-embedding-004").headers()),
        vec!["x-goog-api-key: k"]
    );
}

#[test]
fn text_providers_recover_from_one_malformed_reply() {
    for provider in providers().into_iter().filter(|p| p.name != "anthropic") {
        let (value, calls) = complete(
            &provider,
            &[
                (200, (provider.success)(PROSE)),
                (200, (provider.success)(OK_JSON)),
            ],
        );
        assert_eq!(value.unwrap(), json(OK_JSON), "{}", provider.name);
        assert_eq!(calls, 2, "{}: exactly one repair attempt", provider.name);
    }
}

#[test]
fn text_providers_give_up_after_the_second_malformed_reply() {
    for provider in providers().into_iter().filter(|p| p.name != "anthropic") {
        let (answer, calls) = complete(
            &provider,
            &[
                (200, (provider.success)(PROSE)),
                (200, (provider.success)(PROSE)),
            ],
        );
        let error = answer.unwrap_err();
        assert!(
            matches!(error, ChatError::Malformed(_)),
            "{}: got {error:?}",
            provider.name
        );
        assert_eq!(
            calls, 2,
            "{}: a third call would spend money to learn nothing",
            provider.name
        );
    }
}

#[test]
fn anthropic_reports_a_missing_tool_call_rather_than_guessing() {
    let error = anthropic()
        .completed(
            200,
            r#"{"stop_reason": "end_turn", "content": [{"type": "text", "text": "I don't think there's anything to record."}]}"#,
        )
        .unwrap_err();

    assert!(matches!(error, ChatError::Malformed(_)), "got {error:?}");
    assert!(error.message().contains("tool_use"), "{error:?}");
}

#[test]
fn the_schema_and_the_material_both_reach_the_provider() {
    for provider in providers() {
        let body = (provider.body)(&None).to_string();
        assert!(
            body.contains("I prefer pnpm."),
            "{}: the material never reached the model: {body}",
            provider.name
        );
        assert!(
            body.contains("You extract memories."),
            "{}: the instructions never reached the model: {body}",
            provider.name
        );
        assert!(
            body.contains("\"ok\""),
            "{}: the schema never reached the model: {body}",
            provider.name
        );
    }
}

#[test]
fn each_provider_is_asked_at_its_own_address() {
    let urls: Vec<String> = providers().iter().map(|p| (p.url)()).collect();
    assert_eq!(
        urls,
        vec![
            "http://host/v1/messages".to_string(),
            "http://host/chat/completions".to_string(),
            "http://host/api/chat".to_string(),
        ]
    );
}

#[test]
fn a_repair_follows_the_reply_that_failed() {
    let hint = RepairHint {
        previous_output: "garbled".to_string(),
        parse_error: "expected value".to_string(),
    };
    for provider in providers() {
        let turns = (provider.body)(&Some(RepairHint {
            previous_output: hint.previous_output.clone(),
            parse_error: hint.parse_error.clone(),
        }))["messages"]
            .as_array()
            .unwrap()
            .clone();
        let plain = (provider.body)(&None)["messages"].as_array().unwrap().len();
        assert_eq!(turns.len(), plain + 2, "{}", provider.name);
        assert_eq!(turns[plain]["role"], "assistant");
        assert_eq!(turns[plain]["content"], "garbled");
        assert_eq!(turns[plain + 1]["role"], "user");
        assert_eq!(
            turns[plain + 1]["content"],
            Value::from(hint.as_message())
        );
    }
}

// ---- the tolerant reader ----

/// Answers from a queue; gives the answer and the hint of each call.
fn structured(replies: &[&str]) -> (ChatResult<Value>, Vec<Option<RepairHint>>) {
    match first_reply(Ok(replies[0].to_string())) {
        StructuredStep::Done(answer) => (answer, vec![None]),
        StructuredStep::Repair(hint) => {
            let answer = second_reply(&hint, Ok(replies[1].to_string()));
            (answer, vec![None, Some(hint)])
        }
    }
}

#[test]
fn clean_json_needs_no_repair() {
    let (value, calls) = structured(&[r#"{"ok": true}"#]);
    assert_eq!(value.unwrap(), json(r#"{"ok": true}"#));
    assert_eq!(calls.len(), 1, "one call only");
}

#[test]
fn a_markdown_fence_is_stripped_rather_than_costing_a_repair_call() {
    let (value, calls) = structured(&["```json\n{\"ok\": true}\n```"]);
    assert_eq!(value.unwrap(), json(r#"{"ok": true}"#));
    assert_eq!(
        calls.len(),
        1,
        "fencing is common enough that paying for a second call would be waste"
    );
}

#[test]
fn a_preamble_sentence_is_stripped() {
    let (value, _) = structured(&["Sure, here you go: [{\"a\": 1}] — hope that helps!"]);
    assert_eq!(value.unwrap(), json(r#"[{"a": 1}]"#));
}

#[test]
fn braces_inside_strings_do_not_end_the_value_early() {
    let (value, _) = structured(&[r#"note: {"content": "use a } brace", "n": 1}"#]);
    assert_eq!(
        value.unwrap(),
        json(r#"{"content": "use a } brace", "n": 1}"#)
    );
}

#[test]
fn malformed_output_gets_exactly_one_repair_attempt() {
    let (value, repairs) = structured(&["{not json at all", r#"{"ok": true}"#]);
    assert_eq!(value.unwrap(), json(r#"{"ok": true}"#));

    assert_eq!(repairs.len(), 2);
    assert!(repairs[0].is_none(), "the first call carries no hint");
    let hint = repairs[1]
        .as_ref()
        .expect("the second call must be told why");
    assert!(hint.previous_output.contains("not json at all"));
    assert!(hint.as_message().contains("could not be parsed"));
}

#[test]
fn twice_malformed_is_an_error_not_a_third_attempt() {
    let (answer, repairs) = structured(&["nonsense", "still nonsense", r#"{"ok": true}"#]);
    let error = answer.unwrap_err();

    assert!(matches!(error, ChatError::Malformed(_)), "got {error:?}");
    assert_eq!(
        repairs.len(),
        2,
        "a third call would spend money to learn nothing"
    );
}

#[test]
fn a_transient_failure_is_not_swallowed_by_the_repair_path() {
    let step = first_reply(Err(ChatError::Transient("429".to_string())));
    assert!(
        matches!(
            step,
            StructuredStep::Done(Err(ChatError::Transient(_)))
        ),
        "a rate limit must stay retryable, not be reported as bad output: {step:?}"
    );
}

#[test]
fn regions_and_fences_are_found_exactly() {
    assert_eq!(
        first_json_value(r#"a {"b": "\"}"} c"#).as_deref(),
        Some(r#"{"b": "\"}"}"#)
    );
    assert_eq!(first_json_value("a [1, [2]] ]").as_deref(), Some("[1, [2]]"));
    assert_eq!(first_json_value("no brackets"), None);
    assert_eq!(first_json_value("{ never closed"), None);
    assert_eq!(strip_code_fence("```\n1\n```"), "1");
    assert_eq!(strip_code_fence("plain"), "plain");
    assert_eq!(truncate_for_prompt("short"), "short");
    let long = truncate_for_prompt(&"x".repeat(3_000));
    assert_eq!(long.chars().filter(|c| *c == 'x').count(), 2_000);
    assert!(long.ends_with("… (truncated)"));
}

// ---- trying again ----

const MILLISECOND: u128 = 1_000_000;

/// A model that fails a number of times and then answers: the outcome, how
/// often it was called and how long was waited in between.
fn retried(
    policy: &RetryingChatModel,
    failures: u32,
    error: fn(String) -> ChatError,
) -> (ChatResult<Value>, u32, u128) {
    let mut attempt = 1;
    let mut backoff = policy.initial_backoff;
    let mut waited = 0;
    loop {
        if attempt > failures {
            return (Ok(json(r#"{"ok": true}"#)), attempt, waited);
        }
        match policy.failed(attempt, backoff, error("boom".to_string())) {
            RetryStep::GiveUp(error) => return (Err(error), attempt, waited),
            RetryStep::Wait {
                nanos,
                next_attempt,
                next_backoff,
            } => {
                waited += nanos;
                attempt = next_attempt;
                backoff = next_backoff;
            }
        }
    }
}

fn three_tries() -> RetryingChatModel {
    RetryingChatModel::new().with_policy(3, MILLISECOND)
}

#[test]
fn a_transient_failure_is_retried_until_it_succeeds() {
    let (value, calls, _) = retried(&three_tries(), 2, ChatError::Transient);
    assert_eq!(value.unwrap(), json(r#"{"ok": true}"#));
    assert_eq!(calls, 3);
}

#[test]
fn attempts_are_capped() {
    let (answer, calls, _) = retried(&three_tries(), u32::MAX, ChatError::Transient);
    let error = answer.unwrap_err();
    assert!(matches!(error, ChatError::Transient(_)), "got {error:?}");
    assert_eq!(
        calls, 3,
        "retrying forever would hold an ingestion worker through an outage"
    );
}

#[test]
fn a_permanent_failure_is_not_retried() {
    let (answer, calls, _) = retried(&three_tries(), u32::MAX, ChatError::Permanent);
    let error = answer.unwrap_err();
    assert!(matches!(error, ChatError::Permanent(_)), "got {error:?}");
    assert_eq!(calls, 1);
}

#[test]
fn malformed_output_is_not_retried_here() {
    let (answer, calls, _) = retried(&three_tries(), u32::MAX, ChatError::Malformed);
    let error = answer.unwrap_err();
    assert!(matches!(error, ChatError::Malformed(_)), "got {error:?}");
    assert_eq!(calls, 1);
}

#[test]
fn backoff_grows_between_attempts() {
    let policy = RetryingChatModel::new().with_policy(3, 20 * MILLISECOND);
    let (value, _, waited) = retried(&policy, 2, ChatError::Transient);
    value.unwrap();
    assert_eq!(waited, 60 * MILLISECOND, "20ms, doubled once");
}

// ---- what failures mean ----

#[test]
fn busy_signals_are_retryable() {
    for status in [429, 500, 502, 503, 504, 408] {
        assert!(
            matches!(classify_status(status, "busy"), ChatError::Transient(_)),
            "{status} should be retryable"
        );
    }
    assert!(matches!(classify_status(409, "busy"), ChatError::Transient(_)));
}

#[test]
fn caller_mistakes_are_not_retryable() {
    for status in [400, 401, 403, 404, 413] {
        assert!(
            matches!(classify_status(status, "nope"), ChatError::Permanent(_)),
            "{status} should not be retried"
        );
    }
}

#[test]
fn the_status_code_survives_into_the_message() {
    let message = classify_status(401, "invalid x-api-key").message();
    assert!(message.contains("401"), "{message}");
    assert!(message.contains("invalid x-api-key"), "{message}");
    assert_eq!(message, "HTTP 401: invalid x-api-key");
}

#[test]
fn a_long_body_is_summarised_rather_than_logged_whole() {
    let body = "x".repeat(10_000);
    let message = classify_status(400, &body).message();
    assert!(message.chars().count() < 500, "got {} chars", message.len());
    assert!(message.ends_with('…'));
}

#[test]
fn an_empty_body_still_says_something() {
    let message = classify_status(502, "   ").message();
    assert!(message.contains("(empty body)"), "{message}");
}

#[test]
fn a_call_without_an_answer_is_classified() {
    let timed_out = classify_transport(true, true, "slow");
    assert!(matches!(&timed_out, ChatError::Transient(m) if m == "request timed out: slow"));
    let unreached = classify_transport(false, true, "refused");
    assert!(
        matches!(&unreached, ChatError::Transient(m) if m == "could not reach the provider: refused")
    );
    let other = classify_transport(false, false, "odd");
    assert!(matches!(&other, ChatError::Permanent(m) if m == "odd"));
}

#[test]
fn a_key_comes_from_the_environment() {
    assert_eq!(
        key_from_env("KEY", "embeddings", Some("k".to_string())).unwrap(),
        "k"
    );
    assert_eq!(
        key_from_env("KEY", "embeddings", None).unwrap_err().message(),
        "[embeddings].api_key_env names \"KEY\", but that environment variable is not set. \
         Export it before starting the daemon."
    );
    assert_eq!(
        key_from_env("KEY", "embeddings", Some("  ".to_string()))
            .unwrap_err()
            .message(),
        "the environment variable \"KEY\" is set but empty"
    );
}

// ---- embeddings ----

#[test]
fn rejects_an_unknown_model_by_name() {
    let error = resolve_model("text-embedding-3-large").unwrap_err();
    assert!(matches!(error, RaError::Validation(_)), "got {error:?}");
    assert!(error.message().contains("bge-small-en-v1.5"));
}

#[test]
fn resolves_the_supported_models() {
    assert!(
        resolve_model("BGE-Small-EN-v1.5").is_ok(),
        "case-insensitive"
    );
    assert!(resolve_model("  all-minilm-l6-v2 ").is_ok(), "trimmed");
    assert_eq!(
        resolve_model("all-minilm-l6-v2").unwrap(),
        LocalModel::AllMiniLmL6V2
    );
}

#[test]
fn a_batch_with_a_vector_missing_failed() {
    assert!(check_count(2, 2).is_ok());
    assert_eq!(
        check_count(1, 2).unwrap_err().message(),
        "embedder returned 1 vectors for 2 inputs"
    );
}

#[test]
fn document_and_query_map_to_the_right_task_types() {
    assert_eq!(task_type(EmbeddingTask::Document), "RETRIEVAL_DOCUMENT");
    assert_eq!(task_type(EmbeddingTask::Query), "RETRIEVAL_QUERY");
}

fn gemini(model: &str) -> GeminiEmbedder {
    GeminiEmbedder::new(model, gemini_embedder::DEFAULT_BASE_URL, "k".to_string()).unwrap()
}

#[test]
fn the_model_pin_drops_the_api_prefix_but_requests_carry_it() {
    let embedder = GeminiEmbedder {
        base_url: gemini_embedder::DEFAULT_BASE_URL.to_string(),
        api_key: "k".to_string(),
        model: "text-embedding-004".to_string(),
        dimensions: 768,
    };
    assert_eq!(embedder.model_id(), "text-embedding-004");
    assert_eq!(embedder.qualified_model(), "models/text-embedding-004");
    assert_eq!(gemini(" models/text-embedding-004 ").model_id(), "text-embedding-004");
}

/// The vectors as single-precision numbers.
fn narrowed(vectors: Vec<Vec<u64>>) -> Vec<Vec<f32>> {
    vectors
        .into_iter()
        .map(|v| v.into_iter().map(|bits| f64::from_bits(bits) as f32).collect())
        .collect()
}

#[test]
fn the_response_shape_is_parsed() {
    let payload = json(r#"{"embeddings": [{"values": [0.1, 0.2, 0.3]}, {"values": [0.4, 0.5, 0.6]}]}"#);
    assert_eq!(
        narrowed(parse_embeddings(&payload).unwrap()),
        vec![vec![0.1, 0.2, 0.3], vec![0.4, 0.5, 0.6]]
    );
}

#[test]
fn a_wrong_shape_is_an_error_not_a_panic() {
    assert!(parse_embeddings(&json(r#"{"data": []}"#)).is_err());
    assert!(parse_embeddings(&json(r#"{"embeddings": [{"nope": 1}]}"#)).is_err());
    assert!(parse_embeddings(&json(r#"{"embeddings": [{"values": ["x"]}]}"#)).is_err());
}

#[test]
fn a_missing_key_is_refused_before_any_request() {
    let error = match GeminiEmbedder::new(
        "text-embedding-004",
        gemini_embedder::DEFAULT_BASE_URL,
        "  ".to_string(),
    ) {
        Ok(_) => panic!("an empty key must be refused"),
        Err(error) => error,
    };
    assert!(matches!(error, RaError::Validation(_)), "{error:?}");
}

#[test]
fn gemini_embedder_a_bad_key_is_permanent_and_a_rate_limit_is_transient() {
    assert!(matches!(
        provider_refusal("Gemini", 400, "API key not valid"),
        RaError::Validation(_)
    ));
    assert!(matches!(
        provider_refusal("Gemini", 429, "quota"),
        RaError::Internal(_)
    ));
}

/// Gemini, with vectors of one width.
fn gemini_answer(body: &Value, width: usize) -> String {
    let vector: Vec<f32> = (0..width).map(|i| i as f32 * 0.1).collect();
    let rows: Vec<String> = body["requests"]
        .as_array()
        .unwrap()
        .iter()
        .map(|_| format!("{{\"values\": {vector:?}}}"))
        .collect();
    format!("{{\"embeddings\": [{}]}}", rows.join(", "))
}

fn gemini_embeds(
    embedder: &GeminiEmbedder,
    inputs: &[&str],
    task: EmbeddingTask,
    width: usize,
) -> (Value, Result<Vec<Vec<u64>>>) {
    let inputs: Vec<String> = inputs.iter().map(|s| s.to_string()).collect();
    let body = embedder.embed(&inputs, task).unwrap();
    let answer = gemini_answer(&body, width);
    let vectors = embedder.answered(200, &answer, inputs.len());
    (body, vectors)
}

#[test]
fn stores_documents_and_searches_with_the_right_task_types() {
    let embedder =
        GeminiEmbedder::new("text-embedding-004", "http://host", "gk-test".to_string()).unwrap();
    assert_eq!(
        embedder.url(),
        "http://host/models/text-embedding-004:batchEmbedContents"
    );

    let (body, probe) = gemini_embeds(&embedder, &[PROBE], EmbeddingTask::Document, 5);
    assert_eq!(body["requests"][0]["model"], "models/text-embedding-004");
    assert_eq!(body["requests"][0]["taskType"], "RETRIEVAL_DOCUMENT");
    let embedder = embedder
        .load("text-embedding-004", &probe.unwrap())
        .expect("load should probe successfully");
    assert_eq!(embedder.dimensions, 5);
    assert_eq!(embedder.model_id(), "text-embedding-004");

    let (_, docs) = gemini_embeds(&embedder, &["a", "b"], EmbeddingTask::Document, 5);
    let docs = docs.unwrap();
    assert_eq!(docs.len(), 2);
    assert_eq!(docs[0].len(), 5);
}

#[test]
fn a_query_is_sent_as_retrieval_query() {
    let embedder = gemini("text-embedding-004");
    let (body, query) = gemini_embeds(&embedder, &["where do we deploy?"], EmbeddingTask::Query, 3);
    assert_eq!(body["requests"][0]["taskType"], "RETRIEVAL_QUERY");
    assert_eq!(
        body["requests"][0]["content"]["parts"][0]["text"],
        "where do we deploy?"
    );
    assert_eq!(query.unwrap()[0].len(), 3);
}

#[test]
fn gemini_answers_that_do_not_fit_are_errors() {
    let embedder = gemini("text-embedding-004");
    assert!(embedder
        .answered(200, "not json", 1)
        .unwrap_err()
        .message()
        .starts_with("Gemini returned invalid JSON: "));
    assert_eq!(
        embedder
            .answered(200, r#"{"embeddings": []}"#, 1)
            .unwrap_err()
            .message(),
        "asked Gemini for 1 embeddings, got 0"
    );
    assert_eq!(
        embedder.unreachable("refused").message(),
        format!("could not reach Gemini at {}: refused", gemini_embedder::DEFAULT_BASE_URL)
    );
    assert!(embedder.embed(&vec![], EmbeddingTask::Query).is_none());
    assert!(matches!(
        gemini("nope").load("nope", &vec![vec![]]),
        Err(RaError::Validation(_))
    ));
}

#[test]
fn the_openai_endpoint_and_body_match_the_spec() {
    let embedder = RemoteEmbedder {
        api: EmbeddingApi::OpenAiCompat,
        base_url: "https://api.openai.com/v1".to_string(),
        api_key: Some("sk-x".to_string()),
        model: "text-embedding-3-small".to_string(),
        dimensions: 1536,
    };

    assert_eq!(embedder.endpoint(), "https://api.openai.com/v1/embeddings");
    let body = embedder.request_body(&vec!["a".to_string(), "b".to_string()]);
    assert_eq!(body["model"], "text-embedding-3-small");
    assert_eq!(body["input"], json(r#"["a", "b"]"#));
}

#[test]
fn the_ollama_endpoint_differs() {
    let embedder = RemoteEmbedder {
        api: EmbeddingApi::Ollama,
        base_url: "http://127.0.0.1:11434".to_string(),
        api_key: None,
        model: "nomic-embed-text".to_string(),
        dimensions: 768,
    };
    assert_eq!(embedder.endpoint(), "http://127.0.0.1:11434/api/embed");
}

#[test]
fn a_trailing_slash_in_the_base_url_does_not_double_up() {
    let embedder = RemoteEmbedder::new(
        EmbeddingApi::OpenAiCompat,
        "m",
        "https://gateway.example.com/v1/",
        None,
    );
    assert_eq!(embedder.base_url, "https://gateway.example.com/v1");
}

#[test]
fn openai_responses_are_parsed_and_reordered_by_index() {
    let payload = json(
        r#"{
            "data": [
                {"index": 1, "embedding": [0.3, 0.4]},
                {"index": 0, "embedding": [0.1, 0.2]}
            ]
        }"#,
    );

    let vectors = narrowed(parse_openai(&payload).unwrap());

    assert_eq!(vectors, vec![vec![0.1, 0.2], vec![0.3, 0.4]]);
}

#[test]
fn an_entry_without_an_index_counts_by_its_place() {
    let payload = json(
        r#"{"data": [{"index": 2, "embedding": [2]}, {"embedding": [-1]}, {"index": 0, "embedding": [0.5]}]}"#,
    );
    assert_eq!(
        narrowed(parse_openai(&payload).unwrap()),
        vec![vec![0.5], vec![-1.0], vec![2.0]]
    );
}

#[test]
fn ollama_responses_are_parsed_in_order() {
    let payload = json(r#"{"embeddings": [[0.1, 0.2], [0.3, 0.4]]}"#);
    assert_eq!(
        narrowed(parse_ollama(&payload).unwrap()),
        vec![vec![0.1, 0.2], vec![0.3, 0.4]]
    );
}

#[test]
fn a_response_of_the_wrong_shape_is_an_error_not_a_panic() {
    assert!(parse_openai(&json(r#"{"error": "nope"}"#)).is_err());
    assert!(parse_ollama(&json(r#"{"data": []}"#)).is_err());
    assert!(extract_vector(&json(r#""not an array""#)).is_err());
    assert!(extract_vector(&json(r#"[0.1, "oops"]"#)).is_err());
}

#[test]
fn remote_embedder_a_bad_key_is_permanent_and_a_rate_limit_is_transient() {
    assert!(matches!(
        provider_refusal("embedding provider", 401, "bad key"),
        RaError::Validation(_)
    ));
    assert!(matches!(
        provider_refusal("embedding provider", 429, "slow down"),
        RaError::Internal(_)
    ));
    assert!(matches!(
        provider_refusal("embedding provider", 500, "oops"),
        RaError::Internal(_)
    ));
}

#[test]
fn embedding_an_empty_batch_makes_no_request() {
    let embedder = RemoteEmbedder {
        api: EmbeddingApi::OpenAiCompat,
        base_url: "http://127.0.0.1:1".to_string(),
        api_key: None,
        model: "m".to_string(),
        dimensions: 3,
    };
    assert!(embedder.embed(&vec![]).is_none());
}

/// A provider that answers with as many vectors as were asked for.
fn remote_answer(api: EmbeddingApi, body: &Value, width: usize) -> String {
    let count = body["input"].as_array().unwrap().len();
    let vector: Vec<f32> = (0..width).map(|i| i as f32 * 0.1).collect();
    match api {
        EmbeddingApi::OpenAiCompat => {
            let rows: Vec<String> = (0..count)
                .map(|i| format!("{{\"index\": {i}, \"embedding\": {vector:?}}}"))
                .collect();
            format!("{{\"data\": [{}]}}", rows.join(", "))
        }
        EmbeddingApi::Ollama => {
            let rows: Vec<String> = (0..count).map(|_| format!("{vector:?}")).collect();
            format!("{{\"embeddings\": [{}]}}", rows.join(", "))
        }
    }
}

fn remote_embeds(
    embedder: &RemoteEmbedder,
    inputs: &[&str],
    width: usize,
) -> Result<Vec<Vec<u64>>> {
    let inputs: Vec<String> = inputs.iter().map(|s| s.to_string()).collect();
    let body = embedder.embed(&inputs).unwrap();
    assert_eq!(body["model"], Value::from(embedder.model.as_str()));
    embedder.answered(
        200,
        &remote_answer(embedder.api, &body, width),
        inputs.len(),
    )
}

#[test]
fn openai_compat_probes_dimensions_and_round_trips_a_batch() {
    let embedder = RemoteEmbedder::new(
        EmbeddingApi::OpenAiCompat,
        "text-embedding-3-small",
        "http://host",
        Some("sk-test".to_string()),
    );
    assert_eq!(embedder.api_key.as_deref(), Some("sk-test"));
    let probe = remote_embeds(&embedder, &[PROBE], 4).unwrap();
    let embedder = embedder
        .load(&probe)
        .expect("load should succeed against the mock");
    assert_eq!(embedder.dimensions, 4);
    assert_eq!(embedder.model, "text-embedding-3-small");

    let vectors = remote_embeds(&embedder, &["one", "two"], 4).unwrap();

    assert_eq!(vectors.len(), 2, "one vector per input");
    assert_eq!(vectors[0].len(), 4);
}

#[test]
fn a_rejected_key_stops_startup_rather_than_surfacing_later() {
    let embedder = RemoteEmbedder::new(
        EmbeddingApi::OpenAiCompat,
        "text-embedding-3-small",
        "http://host",
        Some("sk-wrong".to_string()),
    );
    let error = embedder.answered(401, "invalid api key", 1).unwrap_err();
    assert!(matches!(error, RaError::Validation(_)), "got {error:?}");
    assert!(error.message().contains("401"), "{error:?}");
}

#[test]
fn ollama_speaks_its_own_endpoint_and_shape() {
    let embedder = RemoteEmbedder::new(EmbeddingApi::Ollama, "nomic-embed-text", "http://host", None);
    assert_eq!(embedder.endpoint(), "http://host/api/embed");
    let probe = remote_embeds(&embedder, &[PROBE], 3).unwrap();
    let embedder = embedder.load(&probe).expect("ollama load should succeed");

    assert_eq!(embedder.dimensions, 3);
    let vectors = remote_embeds(&embedder, &["x"], 3).unwrap();
    assert_eq!(narrowed(vectors), vec![vec![0.0, 0.1, 0.2]]);
}

#[test]
fn remote_answers_that_do_not_fit_are_errors() {
    let embedder = RemoteEmbedder::new(
        EmbeddingApi::Ollama,
        "m",
        "http://host",
        Some("  ".to_string()),
    );
    assert_eq!(embedder.api_key, None, "a blank key is none");
    assert!(embedder
        .answered(200, "not json", 1)
        .unwrap_err()
        .message()
        .starts_with("the embedding provider returned invalid JSON: "));
    assert_eq!(
        embedder
            .answered(200, r#"{"embeddings": [[1]]}"#, 2)
            .unwrap_err()
            .message(),
        "asked for 2 embeddings, the provider returned 1"
    );
    assert_eq!(
        embedder.unreachable("refused").message(),
        "could not reach the embedding provider at http://host: refused"
    );
    assert!(matches!(
        embedder.load(&vec![]),
        Err(RaError::Validation(_))
    ));
}
