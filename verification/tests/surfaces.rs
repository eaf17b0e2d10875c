//! The REST shapes and the agent tools.
use recuerdos_ai::json::object_value;
use recuerdos_ai::memories::application::memory_exporter::ExportFormat;
use recuerdos_ai::memories::domain::category::Category;
use recuerdos_ai::memories::domain::memory::{Memory, MemorySource, NewMemory};
use recuerdos_ai::memories::domain::memory_repository::{AuditEntry, AuditOperation};
use recuerdos_ai::memories::domain::recall_ranker::{MatchDetail, ScoredMemory};
use recuerdos_ai::memories::infrastructure::http::dto::{
    default_confidence, AuditResponse, MemoryResponse, SaveMemoryRequest, SearchHit, SearchRequest,
    SearchResponse, UpdateMemoryRequest,
};
use recuerdos_ai::memories::infrastructure::http::handlers::{
    parse_id, AuditParams, ExportParams, ACTOR,
};
use recuerdos_ai::memories::infrastructure::mcp::http_memory_toolbox::{
    parse_memory, HttpMemoryToolbox,
};
use recuerdos_ai::memories::infrastructure::mcp::http_service::{allowed_hosts, caller_key};
use recuerdos_ai::memories::infrastructure::mcp::memory_mcp_server::{
    to_mcp_error, DistillParams, ForgetParams, ForgetPlan, MemoryMcpServer, RecallParams,
    SaveParams, ToolError,
};
use recuerdos_ai::memories::infrastructure::mcp::memory_toolbox::{
    RecallRequest, SaveOutcome, SaveRequest, ToolMemory,
};
use recuerdos_ai::memories::infrastructure::mcp::stdio_shim::{
    api_key, base_url, unreachable_daemon,
};
use recuerdos_ai::memories::infrastructure::mcp::tool_text::{
    render_distilled, render_forget_candidates, render_forgotten, render_recall, render_saved,
};
use recuerdos_ai::shared::error::RaError;
use recuerdos_ai::shared::ids::{MemoryId, UserId};
use recuerdos_ai::shared::time::Timestamp;
use serde_json::Value;

fn json(text: &str) -> Value {
    serde_json::from_str(text).unwrap()
}

/// The requests as a client sends them, field by field.
fn texts(value: Option<&Value>) -> Vec<String> {
    value
        .and_then(|list| list.as_array())
        .map(|list| {
            list.iter()
                .map(|item| item.as_str().unwrap().to_string())
                .collect()
        })
        .unwrap_or_default()
}

fn text(value: Option<&Value>) -> Option<String> {
    value.and_then(|item| item.as_str()).map(|s| s.to_string())
}

fn time(value: &Value) -> Option<Timestamp> {
    value.as_str().map(|raw| Timestamp::parse(raw).unwrap())
}

fn save_request(body: &str) -> SaveMemoryRequest {
    let body = json(body);
    SaveMemoryRequest {
        content: body["content"].as_str().unwrap().to_string(),
        category: text(body.get("category")),
        subcategory: text(body.get("subcategory")),
        tags: texts(body.get("tags")),
        confidence: body
            .get("confidence")
            .and_then(|n| n.as_f64())
            .map_or(default_confidence(), |n| (n as f32).to_bits()),
        client: text(body.get("client")),
        session_id: text(body.get("session_id")),
        expires_at: body.get("expires_at").and_then(time),
    }
}

fn update_request(body: &str) -> UpdateMemoryRequest {
    let body = json(body);
    UpdateMemoryRequest {
        content: text(body.get("content")),
        category: text(body.get("category")),
        subcategory: body
            .get("subcategory")
            .map(|s| s.as_str().map(|s| s.to_string())),
        tags: body.get("tags").map(|list| texts(Some(list))),
        expires_at: body.get("expires_at").map(time),
    }
}

#[test]
fn a_save_request_defaults_its_optional_fields() {
    let request = save_request(r#"{"content":"User prefers pnpm"}"#);

    assert_eq!(f32::from_bits(request.confidence), 1.0);
    assert!(request.tags.is_empty());

    let new = request.into_new_memory(&vec![]).unwrap();
    assert_eq!(new.category, Category::FactProject);
    assert_eq!(new.content, "User prefers pnpm");
}

#[test]
fn a_save_request_parses_its_category() {
    let request = save_request(r#"{"content":"x","category":"preference.coding","tags":["ts"]}"#);

    let new = request.into_new_memory(&vec![]).unwrap();
    assert_eq!(new.category, Category::PreferenceCoding);
    assert_eq!(new.tags, vec!["ts".to_string()]);
}

#[test]
fn an_unknown_category_is_rejected() {
    let request = save_request(r#"{"content":"x","category":"nonsense"}"#);

    let refused = request.into_new_memory(&vec![]);
    assert!(refused.is_err());
    assert!(matches!(refused, Err(RaError::Validation(_))));
}

#[test]
fn a_configured_extra_category_is_accepted() {
    let request = save_request(r#"{"content":"x","category":"fact.homelab"}"#);

    let new = request
        .into_new_memory(&vec!["fact.homelab".to_string()])
        .unwrap();
    assert_eq!(new.category.as_str(), "fact.homelab");
}

#[test]
fn a_patch_distinguishes_an_absent_field_from_an_explicit_null() {
    let absent = update_request(r#"{"content":"x"}"#).into_edit(&vec![]).unwrap();
    assert_eq!(absent.expires_at, None, "absent means leave alone");

    let cleared = update_request(r#"{"expires_at":null}"#)
        .into_edit(&vec![])
        .unwrap();
    assert_eq!(cleared.expires_at, Some(None), "null means clear it");
}

#[test]
fn a_patch_with_an_unknown_category_is_refused() {
    assert!(matches!(
        update_request(r#"{"category":"nonsense"}"#).into_edit(&vec![]),
        Err(RaError::Validation(_))
    ));
}

fn search(query: &str, limit: Option<usize>, categories: &[&str]) -> SearchRequest {
    SearchRequest {
        query: query.to_string(),
        limit,
        categories: categories.iter().map(|s| s.to_string()).collect(),
        subcategories: vec![" Editors ".to_string()],
        tags: vec!["TypeScript".to_string()],
        since: None,
        include_superseded: true,
    }
}

#[test]
fn a_search_request_becomes_a_query() {
    let query = search("  pnpm ", None, &["decision"])
        .into_query(&vec![], 7)
        .unwrap();
    assert_eq!(query.text(), "pnpm");
    assert_eq!(query.limit(), 7);
    assert!(query.include_superseded());

    let capped = search("pnpm", Some(1_000_000), &[])
        .into_query(&vec![], 7)
        .unwrap();
    assert!(capped.limit() < 1_000_000);
}

#[test]
fn a_search_request_is_refused_for_its_category_before_its_text() {
    let error = search("   ", None, &["decision", "nonsense"])
        .into_query(&vec![], 7)
        .unwrap_err();
    assert!(error.message().contains("nonsense"), "{error:?}");

    let blank = search("   ", None, &[]).into_query(&vec![], 7).unwrap_err();
    assert!(matches!(blank, RaError::Validation(_)));
    assert!(!blank.message().contains("nonsense"));
}

fn stored(content: &str) -> Memory {
    Memory::create(
        UserId::new(),
        NewMemory {
            content: content.to_string(),
            category: Category::Decision,
            subcategory: None,
            tags: vec![],
            entities: vec![],
            confidence: 1.0f32.to_bits(),
            source: MemorySource {
                client: None,
                session_id: None,
            },
            expires_at: None,
        },
        Timestamp::new(1_700_000_000, 0).unwrap(),
    )
    .unwrap()
}

#[test]
fn a_result_shows_its_memory_and_its_ranks() {
    let memory = stored("x");
    let id = memory.id();
    let scored = ScoredMemory {
        memory,
        score: 0.5f32.to_bits(),
        match_detail: MatchDetail {
            vector_rank: Some(1),
            bm25_rank: None,
            graph_rank: Some(2),
        },
    };

    let hit = SearchHit::from(&scored);
    assert_eq!(hit.memory.id, id.to_text());
    assert_eq!(hit.memory.category, "decision");
    assert_eq!(hit.matched.vector_rank, Some(1));
    assert_eq!(hit.matched.bm25_rank, None);
    assert_eq!(f32::from_bits(hit.score), 0.5);

    let response = SearchResponse::from(&vec![scored], 12);
    assert_eq!(response.results.len(), 1);
    assert_eq!(response.took_ms, 12);
    assert_eq!(response.results[0].memory.content, "x");
}

#[test]
fn a_superseded_memory_shows_by_what() {
    let by = MemoryId::new();
    let now = Timestamp::new(1_700_000_100, 0).unwrap();
    let shown = MemoryResponse::from(&stored("x").supersede(by, now));
    assert_eq!(shown.superseded_by, Some(by.to_text()));
    assert_eq!(shown.subcategory, None);
}

#[test]
fn the_audit_trail_is_answered_in_order() {
    let at = Timestamp::new(1_700_000_000, 0).unwrap();
    let entry = |operation: AuditOperation| AuditEntry {
        memory_id: MemoryId::new(),
        operation,
        actor: "mcp".to_string(),
        detail: String::new(),
        at,
    };
    let response = AuditResponse::from(&vec![
        entry(AuditOperation::Delete),
        entry(AuditOperation::Add),
    ]);
    assert_eq!(response.entries.len(), 2);
    assert_eq!(response.entries[0].operation, "delete");
    assert_eq!(response.entries[1].operation, "add");
    assert_eq!(response.entries[0].actor, "mcp");
}

#[test]
fn handlers_read_their_parameters() {
    assert_eq!(ACTOR, "rest");
    assert_eq!(AuditParams { limit: None }.effective_limit(), 100);
    assert_eq!(AuditParams { limit: Some(0) }.effective_limit(), 1);
    assert_eq!(AuditParams { limit: Some(9_999) }.effective_limit(), 500);
    assert_eq!(AuditParams { limit: Some(42) }.effective_limit(), 42);

    let id = MemoryId::new();
    assert_eq!(parse_id(&id.to_text()).unwrap(), id);
    assert_eq!(
        parse_id("nope").unwrap_err().message(),
        "\"nope\" is not a valid memory id"
    );

    let params = |format: Option<&str>| ExportParams {
        format: format.map(|s| s.to_string()),
        include_inactive: false,
    };
    assert_eq!(params(None).chosen_format().unwrap(), ExportFormat::Markdown);
    assert_eq!(
        params(Some("json")).chosen_format().unwrap(),
        ExportFormat::Json
    );
    assert_eq!(
        params(Some("xml")).chosen_format().unwrap_err().message(),
        "unknown export format \"xml\" (expected markdown or json)"
    );
}

// ---- the daemon's answers ----

#[test]
fn parses_a_memory_from_the_daemons_json() {
    let value = json(
        r#"{
            "id": "019f7c5a-0000-7000-8000-000000000001",
            "content": "User prefers pnpm",
            "category": "preference.coding",
            "tags": ["typescript"],
            "created_at": "2026-06-02T12:00:00Z",
            "score": 0.91
        }"#,
    );

    let memory = parse_memory(&value).unwrap();

    assert_eq!(memory.content, "User prefers pnpm");
    assert_eq!(memory.category, "preference.coding");
    assert_eq!(memory.tags, vec!["typescript".to_string()]);
    assert_eq!(
        memory.score.map(|bits| f64::from_bits(bits) as f32),
        Some(0.91)
    );
    assert_eq!(memory.created_at, Timestamp::new(1_780_401_600, 0).unwrap());
}

#[test]
fn a_memory_without_a_score_parses_as_unscored() {
    let value = json(
        r#"{
            "id": "019f7c5a-0000-7000-8000-000000000001",
            "content": "x",
            "category": "fact.project",
            "created_at": "2026-06-02T12:00:00Z"
        }"#,
    );

    let memory = parse_memory(&value).unwrap();

    assert_eq!(memory.score, None);
    assert!(memory.tags.is_empty());
}

#[test]
fn a_malformed_response_is_an_error_rather_than_a_panic() {
    let error = parse_memory(&json(r#"{"content": "no id"}"#)).unwrap_err();
    assert!(error.message().contains("missing"), "{error:?}");
    assert_eq!(error.message(), "daemon response is missing \"id\"");
}

#[test]
fn an_answered_time_that_does_not_read_is_an_error() {
    let value = json(r#"{"id": "a", "content": "x", "category": "c", "created_at": "today"}"#);
    assert!(parse_memory(&value)
        .unwrap_err()
        .message()
        .starts_with("daemon sent an unparseable timestamp: "));
}

#[test]
fn trailing_slashes_in_the_base_url_do_not_double_up() {
    let toolbox = HttpMemoryToolbox::new("http://localhost:7070/", "key");
    assert_eq!(toolbox.base_url, "http://localhost:7070");
    assert_eq!(toolbox.url("/v1/profile"), "http://localhost:7070/v1/profile");
    assert_eq!(
        toolbox.headers(),
        vec![("authorization".to_string(), "Bearer key".to_string())]
    );
}

#[test]
fn the_toolboxs_requests_carry_what_was_asked() {
    let toolbox = HttpMemoryToolbox::new("http://localhost:7070", "key");
    let body = toolbox.save_body(&SaveRequest {
        content: "x".to_string(),
        category: Some("decision".to_string()),
        tags: vec!["a".to_string()],
        client: None,
    });
    assert_eq!(
        body,
        json(r#"{"content": "x", "tags": ["a"], "category": "decision"}"#)
    );

    let body = toolbox.recall_body(&RecallRequest {
        query: "pnpm".to_string(),
        categories: vec![],
        limit: Some(3),
    });
    assert_eq!(body, json(r#"{"query": "pnpm", "categories": [], "limit": 3}"#));

    let candidates = toolbox.candidates("pnpm", 10);
    assert_eq!(candidates.limit, Some(10));
    assert_eq!(candidates.query, "pnpm");

    let ids = vec!["one".to_string(), "two".to_string()];
    assert_eq!(
        toolbox.next_deletion(&ids, 1).as_deref(),
        Some("/v1/memories/two")
    );
    assert_eq!(toolbox.next_deletion(&ids, 2), None);
}

#[test]
fn an_answer_means_what_its_status_says() {
    let toolbox = HttpMemoryToolbox::new("http://localhost:7070", "key");
    let refused = || json(r#"{"error": {"message": "no"}}"#);
    assert_eq!(toolbox.answered(200, "200 OK", json("7")).unwrap(), json("7"));
    assert!(matches!(
        toolbox.answered(400, "400 Bad Request", refused()),
        Err(RaError::Validation(m)) if m == "no"
    ));
    assert!(matches!(
        toolbox.answered(401, "401 Unauthorized", refused()),
        Err(RaError::Unauthorized(m)) if m == "no"
    ));
    assert!(matches!(
        toolbox.answered(403, "403 Forbidden", refused()),
        Err(RaError::Forbidden(m)) if m == "no"
    ));
    assert!(matches!(
        toolbox.answered(404, "404 Not Found", json("{}")),
        Err(RaError::NotFound(m)) if m == "request failed"
    ));
    assert!(matches!(
        toolbox.answered(409, "409 Conflict", refused()),
        Err(RaError::Conflict(m)) if m == "no"
    ));
    assert!(matches!(
        toolbox.answered(500, "500 Internal Server Error", refused()),
        Err(RaError::Internal(m)) if m == "daemon returned 500 Internal Server Error: no"
    ));
    assert_eq!(
        toolbox.profile(200, "200 OK", "who".to_string()).unwrap(),
        "who"
    );
    assert_eq!(
        toolbox
            .profile(503, "503 Service Unavailable", String::new())
            .unwrap_err()
            .message(),
        "daemon returned 503 Service Unavailable for the profile"
    );
    assert_eq!(
        toolbox.unreachable("refused").message(),
        "could not reach the RecordAgent daemon at http://localhost:7070: refused. Is it running?"
    );
}

#[test]
fn a_search_answer_reads_in_order() {
    let toolbox = HttpMemoryToolbox::new("http://localhost:7070", "key");
    let one = r#"{"id": "a", "content": "x", "category": "c", "created_at": "2026-06-02T12:00:00Z"}"#;
    let two = r#"{"id": "b", "content": "y", "category": "c", "created_at": "2026-06-02T12:00:00Z"}"#;
    let found = toolbox
        .recalled(&json(&format!("{{\"results\": [{one}, {two}]}}")))
        .unwrap();
    assert_eq!(found.len(), 2);
    assert_eq!(found[0].id, "a");
    assert_eq!(found[1].id, "b");
    assert!(toolbox.recalled(&json("{}")).unwrap().is_empty());
    assert!(toolbox
        .recalled(&json(&format!("{{\"results\": [{one}, {{}}]}}")))
        .is_err());

    let saved = toolbox.saved(&json(one)).unwrap();
    assert_eq!(saved.memories.len(), 1);
    assert!(!saved.understanding);
    assert!(toolbox.saved(&json("{}")).is_err());
}

// ---- hosts ----

#[test]
fn empty_config_is_loopback_only() {
    assert_eq!(
        allowed_hosts(&vec![]),
        vec![
            "localhost".to_string(),
            "127.0.0.1".to_string(),
            "::1".to_string()
        ]
    );
}

#[test]
fn configured_hosts_are_added_to_the_loopback_defaults() {
    let hosts = allowed_hosts(&vec!["memory.example.com".to_string()]);
    assert!(hosts.contains(&"localhost".to_string()));
    assert!(hosts.contains(&"memory.example.com".to_string()));
}

#[test]
fn a_star_disables_the_guard() {
    assert!(allowed_hosts(&vec!["*".to_string()]).is_empty());
    assert!(allowed_hosts(&vec!["a.example".to_string(), "*".to_string()]).is_empty());
}

#[test]
fn each_request_is_sent_on_under_its_own_key() {
    let key = |header: &str| caller_key(Some(header.to_string()));
    assert_eq!(key("Bearer alex-key").unwrap(), "alex-key");
    assert_eq!(key("Bearer sam-key").unwrap(), "sam-key");
    for refused in [key("Basic abc"), key("Bearer"), caller_key(None)] {
        let error = refused.unwrap_err();
        assert!(matches!(error, RaError::Unauthorized(_)));
        assert_eq!(error.message(), "the request carries no bearer token");
    }
}

// ---- what the tools say ----

fn memory(content: &str) -> ToolMemory {
    ToolMemory {
        id: "019f7c5a-0000-7000-8000-000000000001".to_string(),
        content: content.to_string(),
        category: "preference.coding".to_string(),
        tags: vec!["typescript".to_string()],
        created_at: Timestamp::parse("2026-06-02T12:00:00Z").unwrap(),
        score: None,
    }
}

/// A score as it is shown, with two decimals.
fn shown(score: f32) -> Option<String> {
    Some(format!("{score:.2}"))
}

#[test]
fn recall_renders_one_compact_line_per_memory() {
    let rendered = render_recall(&vec![memory("User prefers pnpm")], &vec![shown(0.91)]);

    assert!(rendered.starts_with("1. [preference.coding] User prefers pnpm"));
    assert!(rendered.contains("saved 2026-06-02"));
    assert!(rendered.contains("score 0.91"));
    assert_eq!(rendered.lines().count(), 1, "one memory, one line");
    assert_eq!(
        rendered,
        "1. [preference.coding] User prefers pnpm (saved 2026-06-02, score 0.91, typescript)"
    );
}

#[test]
fn recall_flattens_multi_line_content() {
    let rendered = render_recall(&vec![memory("line one\nline two")], &vec![None]);

    assert_eq!(rendered.lines().count(), 1, "got: {rendered}");
    assert!(rendered.contains("line one line two"));
}

#[test]
fn recall_numbers_its_memories() {
    let rendered = render_recall(&vec![memory("a"), memory("b")], &vec![None, shown(0.5)]);
    let lines: Vec<&str> = rendered.lines().collect();
    assert_eq!(
        lines,
        vec![
            "1. [preference.coding] a (saved 2026-06-02, typescript)",
            "2. [preference.coding] b (saved 2026-06-02, score 0.50, typescript)",
        ]
    );
}

#[test]
fn an_empty_recall_says_nothing_is_stored_rather_than_returning_blank() {
    let rendered = render_recall(&vec![], &vec![]);

    assert!(rendered.contains("No memories matched"), "{rendered}");
    assert!(!rendered.trim().is_empty());
}

#[test]
fn forget_candidates_state_plainly_that_nothing_was_deleted() {
    let rendered = render_forget_candidates(&vec![memory("User prefers pnpm")]);

    assert!(
        rendered.contains("Nothing has been deleted yet"),
        "a model must not report a deletion that hasn't happened: {rendered}"
    );
    assert!(rendered.contains("confirm: true"), "{rendered}");
    assert!(
        rendered.contains("019f7c5a-0000-7000-8000-000000000001"),
        "the ids to pass back must be visible: {rendered}"
    );
}

#[test]
fn forget_with_no_matches_does_not_invite_a_confirmation() {
    let rendered = render_forget_candidates(&vec![]);

    assert!(rendered.contains("nothing to forget"), "{rendered}");
    assert!(!rendered.contains("confirm: true"), "{rendered}");
}

#[test]
fn deletion_counts_read_naturally() {
    assert!(render_forgotten(1).contains("1 memory."));
    assert!(render_forgotten(3).contains("3 memories"));
    assert!(render_forgotten(0).contains("No memories were deleted"));
}

#[test]
fn a_save_is_reported_for_what_it_did() {
    let outcome = |memories: Vec<ToolMemory>, understanding: bool| SaveOutcome {
        memories,
        understanding,
    };
    assert_eq!(render_saved(&outcome(vec![], false)), "Nothing was stored.");
    assert!(render_saved(&outcome(vec![], true)).starts_with("Nothing new was stored \u{2014} "));
    assert_eq!(
        render_saved(&outcome(vec![memory("a\nb")], false)),
        "Saved as [preference.coding] (id 019f7c5a-0000-7000-8000-000000000001): a b\n\
         It will be available in future sessions."
    );
    assert!(
        render_saved(&outcome(vec![memory("a"), memory("b")], true))
            .starts_with("Saved 2 memories:\n\n- [preference.coding] a (id ")
    );
}

#[test]
fn a_distilled_session_is_counted() {
    assert!(render_distilled(&vec![]).starts_with("Nothing from this session"));
    assert!(render_distilled(&vec![memory("a")]).starts_with("Distilled 1 memory from"));
    assert!(
        render_distilled(&vec![memory("a"), memory("b")]).starts_with("Distilled 2 memories from")
    );
}

// ---- the tools' decisions ----

fn forget(query: Option<&str>, ids: &[&str], confirm: bool) -> ForgetPlan {
    MemoryMcpServer::new("opencode").memory_forget(ForgetParams {
        query: query.map(|s| s.to_string()),
        ids: ids.iter().map(|s| s.to_string()).collect(),
        confirm,
    })
}

#[test]
fn a_deletion_takes_identifiers_and_a_confirmation() {
    assert!(matches!(
        forget(None, &["a"], false),
        ForgetPlan::Say(text) if text.starts_with("Nothing deleted.")
    ));
    assert!(matches!(
        forget(Some("pnpm"), &["a"], true),
        ForgetPlan::Delete(ids) if ids == vec!["a".to_string()]
    ));
    assert!(matches!(
        forget(Some("pnpm"), &[], true),
        ForgetPlan::Find { query, limit: 10 } if query == "pnpm"
    ));
    assert!(matches!(
        forget(None, &[], true),
        ForgetPlan::Refuse(ToolError::InvalidParams(_))
    ));
}

#[test]
fn tool_arguments_become_requests() {
    let server = MemoryMcpServer::new("opencode");
    let saved = server.memory_save(SaveParams {
        content: "x".to_string(),
        category: None,
        tags: vec![],
    });
    assert_eq!(saved.client.as_deref(), Some("opencode"));
    let recalled = server.memory_recall(RecallParams {
        query: "x".to_string(),
        categories: vec!["decision".to_string()],
        limit: Some(2),
    });
    assert_eq!(recalled.limit, Some(2));
    let distilled = server.session_distill(DistillParams {
        content: "x".to_string(),
        session_id: Some("s".to_string()),
        tags: vec![],
    });
    assert_eq!(distilled.session_id.as_deref(), Some("s"));
    assert!(server.read_resource("memory://profile").is_ok());
    assert!(matches!(
        server.read_resource("memory://other"),
        Err(ToolError::ResourceNotFound(m)) if m == "unknown resource memory://other"
    ));
}

#[test]
fn an_agent_never_sees_internal_detail() {
    let detail = || "/var/lib/secret: no such table".to_string();
    assert!(matches!(
        to_mcp_error(RaError::Internal(detail())),
        ToolError::Internal(m) if m == "internal error"
    ));
    assert!(matches!(
        to_mcp_error(RaError::Forbidden(detail())),
        ToolError::InvalidRequest(m) if !m.contains("secret")
    ));
    assert!(matches!(
        to_mcp_error(RaError::Unauthorized(detail())),
        ToolError::InvalidRequest(m) if !m.contains("secret")
    ));
    assert!(matches!(
        to_mcp_error(RaError::Validation("v".to_string())),
        ToolError::InvalidParams(m) if m == "v"
    ));
    assert!(matches!(
        to_mcp_error(RaError::NotFound("n".to_string())),
        ToolError::InvalidParams(m) if m == "n"
    ));
    assert!(matches!(
        to_mcp_error(RaError::Conflict("c".to_string())),
        ToolError::InvalidRequest(m) if m == "c"
    ));
}

#[test]
fn the_stdio_transport_names_what_is_missing() {
    assert_eq!(api_key(Some("k".to_string())).unwrap(), "k");
    assert!(api_key(None)
        .unwrap_err()
        .message()
        .starts_with("RECUERDOS_AI_API_KEY is not set. "));
    assert_eq!(base_url(None), "http://127.0.0.1:7070");
    assert_eq!(base_url(Some("http://x".to_string())), "http://x");
    assert_eq!(
        unreachable_daemon("http://x", &RaError::Internal("refused".to_string())).message(),
        "could not reach the Recuerdos AI daemon at http://x: refused"
    );
}

#[test]
fn an_answers_body_is_read_as_a_document_or_as_an_empty_one() {
    let toolbox = HttpMemoryToolbox::new("http://localhost:1", "key");
    assert_eq!(
        toolbox.read_answer(200, "200 OK", Some("[7]".to_string())).unwrap(),
        json("[7]")
    );
    for body in [Some("not json".to_string()), None] {
        assert_eq!(
            toolbox.read_answer(200, "200 OK", body.clone()).unwrap(),
            json("{}")
        );
        assert!(matches!(
            toolbox.read_answer(404, "404 Not Found", body.clone()),
            Err(RaError::NotFound(m)) if m == "request failed"
        ));
    }
    let refused = r#"{"error": {"message": "taken"}}"#.to_string();
    assert!(matches!(
        toolbox.read_answer(409, "409 Conflict", Some(refused)),
        Err(RaError::Conflict(m)) if m == "taken"
    ));
}

#[test]
fn a_later_field_replaces_an_earlier_one_of_its_name() {
    let object = object_value(vec![
        ("a".to_string(), json("1")),
        ("b".to_string(), json("2")),
        ("a".to_string(), json("3")),
    ]);
    assert_eq!(object, json(r#"{"a": 3, "b": 2}"#));
}
