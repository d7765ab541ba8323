use rotation_copilot::account_store::{AccountStatus, AccountStore, AccountsData, CopilotAccount};
use rotation_copilot::json::Json;
use rotation_copilot::routes::proxy::{
    authorize_at, chat_error, check_chat_reply, extract_context, extract_context_at,
    finish_chat_at, finish_chat_completions, finish_embeddings, finish_messages, finish_responses,
    finish_responses_at, gateway_error, handle_chat_completions, handle_chat_completions_with,
    handle_embeddings, handle_messages, handle_messages_with, handle_models, handle_models_at,
    handle_responses, handle_token, handle_usage, next_context, rate_limit_step, read_reply,
    resume_context, resume_context_at, short_id, stream_headers, ContextStep, RateStep, Reply,
};
use rotation_copilot::routes::ApiError;
use rotation_copilot::services::{
    ModelCapabilities, ModelInfo, ModelLimits, ModelsResponse, ServiceRequest,
};
use rotation_copilot::state::{AppState, RequestContext, ServerConfig, TrafficLogEntry};

const ID_A: &str = "aaaaaaaa-0000-4000-8000-000000000000";
const ID_B: &str = "bbbbbbbb-0000-4000-8000-000000000000";

fn account(id: &str) -> CopilotAccount {
    CopilotAccount {
        id: id.to_string(),
        label: "l".to_string(),
        github_token: format!("gh-{}", &id[..1]),
        copilot_token: Some(format!("tok-{}", &id[..1])),
        copilot_token_expiry: None,
        account_type: "business".to_string(),
        status: AccountStatus::Active,
        last_used: None,
        error_count: 0,
        created_at: 0,
    }
}

fn state_with(limit: Option<u64>, wait: bool) -> AppState {
    let mut config = ServerConfig::default();
    config.rate_limit_seconds = limit;
    config.rate_limit_wait = wait;
    let mut store = AccountStore::new();
    store.load(Some(AccountsData {
        accounts: vec![account(ID_A), account(ID_B)],
        rotation_index: 0,
        api_keys: vec![],
    }));
    AppState::new(config, store)
}

fn parse(text: &str) -> Json {
    Json::parse(text).unwrap()
}

fn told(error: &ApiError) -> (u16, &str) {
    (error.status, error.message.as_str())
}

fn came(status: u16, status_text: &str, body: &str) -> Reply {
    Reply::Came { status, status_text: status_text.to_string(), body: body.to_string() }
}

fn ready(outcome: Result<ContextStep, ApiError>) -> RequestContext {
    match outcome {
        Ok(ContextStep::Ready(ctx)) => ctx,
        other => panic!("{:?}", other),
    }
}

fn header<'a>(request: &'a ServiceRequest, name: &str) -> Option<&'a str> {
    request.headers.iter().find(|h| h.0 == name).map(|h| h.1.as_str())
}

#[test]
fn errors_have_a_status_and_a_type() {
    let body = |status: u16| ApiError::new(status, "m").into_response().1.to_text();
    for (status, kind) in [
        (400, "invalid_request_error"),
        (401, "authentication_error"),
        (403, "permission_error"),
        (404, "not_found_error"),
        (413, "request_too_large"),
        (429, "rate_limit_error"),
        (529, "overloaded_error"),
        (500, "api_error"),
        (502, "api_error"),
    ] {
        assert_eq!(
            body(status),
            format!(r#"{{"error":{{"message":"m","type":"{}"}},"type":"error"}}"#, kind)
        );
    }
    assert_eq!(told(&ApiError::unauthorized()), (401, "Unauthorized"));
    assert_eq!(told(&ApiError::not_found("x")), (404, "x"));
    assert_eq!(told(&ApiError::bad_request("y")), (400, "y"));
    assert_eq!(told(&ApiError::rate_limited()), (429, "Rate limit exceeded"));
    assert_eq!(ApiError::rate_limited().into_response().0, 429);
}

#[test]
fn without_keys_everyone_may_call() {
    let mut state = state_with(None, false);
    let ctx = ready(extract_context(&mut state, None));
    assert_eq!(ctx.copilot_token, "tok-a");
    assert_eq!(ctx.github_token, "gh-a");
    assert_eq!(ctx.account_type, "business");
    assert_eq!(ctx.account_id.as_deref(), Some(ID_A));
    let ctx = ready(extract_context(&mut state, Some("whatever")));
    assert_eq!(ctx.copilot_token, "tok-b");
    assert_eq!(state.last_request_timestamp, None);
}

#[test]
fn with_keys_callers_need_one() {
    let mut state = state_with(None, false);
    let key = state.store.add_api_key("k".to_string()).key;
    for shown in [None, Some(""), Some("Bearer "), Some(key.as_str()), Some("Bearer rc-other")] {
        let refused = extract_context_at(&mut state, shown, 5, 6).unwrap_err();
        assert_eq!(told(&refused), (401, "Unauthorized"));
    }
    assert_eq!(state.store.get_api_keys()[0].request_count, 0);
    assert_eq!(state.store.data.rotation_index, 0);
    let shown = format!("Bearer {}", key);
    ready(extract_context_at(&mut state, Some(&shown), 5, 6));
    let entry = &state.store.get_api_keys()[0];
    assert_eq!((entry.request_count, entry.last_used), (1, Some(5)));
}

#[test]
fn a_revoked_key_is_refused_while_others_are_left() {
    let mut state = state_with(None, false);
    let first = state.store.add_api_key("1".to_string()).key;
    let second = state.store.add_api_key("2".to_string()).key;
    let shown = format!("Bearer {}", first);
    assert!(authorize_at(&mut state.store, Some(&shown), 1).is_ok());
    state.store.remove_api_key(&first);
    assert!(authorize_at(&mut state.store, Some(&shown), 2).is_err());
    state.store.remove_api_key(&second);
    assert!(authorize_at(&mut state.store, Some(&shown), 3).is_ok());
}

#[test]
fn the_rate_limit_goes_by_whole_seconds() {
    assert_eq!(rate_limit_step(None, false, Some(0), 0), RateStep::Proceed);
    assert_eq!(rate_limit_step(Some(2), false, None, 0), RateStep::Proceed);
    assert_eq!(rate_limit_step(Some(2), false, Some(1000), 2999), RateStep::Reject);
    assert_eq!(rate_limit_step(Some(2), false, Some(1000), 3000), RateStep::Proceed);
    assert_eq!(rate_limit_step(Some(2), true, Some(1000), 2999), RateStep::Wait(1000));
    assert_eq!(rate_limit_step(Some(2), true, Some(1000), 1000), RateStep::Wait(2000));
    assert_eq!(rate_limit_step(Some(0), false, Some(5), 5), RateStep::Proceed);
    assert_eq!(rate_limit_step(Some(2), false, Some(2000), 1000), RateStep::Proceed);
}

#[test]
fn too_frequent_requests_are_refused() {
    let mut state = state_with(Some(2), false);
    ready(extract_context_at(&mut state, None, 0, 10_000));
    assert_eq!(state.last_request_timestamp, Some(10_000));
    let refused = extract_context_at(&mut state, None, 0, 11_999).unwrap_err();
    assert_eq!(told(&refused), (429, "Rate limit exceeded"));
    assert_eq!(state.last_request_timestamp, Some(10_000));
    let ctx = ready(extract_context_at(&mut state, None, 0, 12_000));
    assert_eq!(ctx.copilot_token, "tok-b");
    assert_eq!(state.last_request_timestamp, Some(12_000));
}

#[test]
fn too_frequent_requests_wait() {
    let mut state = state_with(Some(2), true);
    ready(extract_context_at(&mut state, None, 0, 10_000));
    let step = extract_context_at(&mut state, None, 0, 10_500).unwrap();
    assert!(matches!(step, ContextStep::Wait(2000)));
    assert_eq!(state.last_request_timestamp, Some(10_000));
    let ctx = ready(resume_context_at(&mut state, 12_500));
    assert_eq!(ctx.copilot_token, "tok-b");
    assert_eq!(state.last_request_timestamp, Some(12_500));
    ready(resume_context(&mut state));
    assert!(state.last_request_timestamp.unwrap() > 12_500);
}

#[test]
fn waiting_requests_pass_one_by_one() {
    let mut state = state_with(Some(2), true);
    ready(extract_context_at(&mut state, None, 0, 10_000));
    for _ in 0..2 {
        let step = extract_context_at(&mut state, None, 0, 11_000).unwrap();
        assert!(matches!(step, ContextStep::Wait(1000)));
    }
    ready(resume_context_at(&mut state, 12_000));
    let step = resume_context_at(&mut state, 12_000).unwrap();
    assert!(matches!(step, ContextStep::Wait(2000)));
    assert_eq!(state.last_request_timestamp, Some(12_000));
    assert_eq!(state.store.data.rotation_index, 0);
    ready(resume_context_at(&mut state, 14_000));
    assert_eq!(state.last_request_timestamp, Some(14_000));
}

#[test]
fn without_accounts_requests_are_refused() {
    let mut state = AppState::new(ServerConfig::default(), AccountStore::new());
    let refused = extract_context(&mut state, None).unwrap_err();
    assert_eq!(told(&refused), (503, "No active accounts available"));
    assert!(next_context(&mut state.store).is_err());
}

#[test]
fn a_chat_request_is_sent_on() {
    let state = state_with(None, false);
    let ctx = next_context(&mut state_with(None, false).store).unwrap();
    let payload = parse(r#"{"model":"gpt-4o","stream":true,"messages":[]}"#);
    let forward = handle_chat_completions_with(&state, &ctx, &payload, "req");
    assert_eq!(forward.request.url, "https://api.business.githubcopilot.com/chat/completions");
    assert_eq!(header(&forward.request, "Authorization"), Some("Bearer tok-a"));
    assert_eq!(header(&forward.request, "Editor-Version"), Some("vscode/1.114.0"));
    assert_eq!(header(&forward.request, "X-Request-Id"), Some("req"));
    assert_eq!(forward.request.body.as_ref().unwrap().to_text(), payload.to_text());
    assert!(forward.stream);
    assert_eq!(forward.model, "gpt-4o");
    let plain = handle_chat_completions(&state, &ctx, &parse("{}"));
    assert!(!plain.stream);
    assert_eq!(plain.model, "-");
}

#[test]
fn a_messages_request_is_translated_and_sent_on() {
    let state = state_with(None, false);
    let ctx = next_context(&mut state_with(None, false).store).unwrap();
    let payload = parse(r#"{"messages":[{"role":"assistant","content":"x"}]}"#);
    let forward = handle_messages_with(&state, &ctx, &payload, "req");
    assert_eq!(
        forward.request.body.as_ref().unwrap().to_text(),
        r#"{"max_tokens":4096,"messages":[{"content":"x","role":"assistant"}],"model":"gpt-4o","stream":false}"#
    );
    assert_eq!(header(&forward.request, "X-Initiator"), Some("agent"));
    assert_eq!(forward.model, "");
    assert_eq!(handle_messages(&state, &ctx, &parse(r#"{"model":"m"}"#)).model, "m");
}

#[test]
fn other_requests_are_sent_on_as_they_are() {
    let state = state_with(None, false);
    let ctx = next_context(&mut state_with(None, false).store).unwrap();
    let payload = parse(r#"{"stream":true,"input":"x"}"#);
    let (request, stream) = handle_responses(&state, &ctx, &payload);
    assert_eq!(request.url, "https://api.business.githubcopilot.com/responses");
    assert!(stream);
    let request = handle_embeddings(&state, &ctx, &payload);
    assert_eq!(request.url, "https://api.business.githubcopilot.com/embeddings");
    assert_eq!(request.body.as_ref().unwrap().to_text(), payload.to_text());
}

#[test]
fn failed_chat_requests_are_told_apart() {
    assert_eq!(told(&chat_error("400: too long")), (400, "too long"));
    assert_eq!(told(&chat_error("connection closed")), (502, "connection closed"));
    assert_eq!(told(&gateway_error("x")), (502, "x"));
    assert!(check_chat_reply(&came(200, "200 OK", "")).is_ok());
    let long = check_chat_reply(&came(413, "413 Payload Too Large", "")).unwrap_err();
    assert_eq!(told(&long), (400, "prompt is too long for model"));
    let other = check_chat_reply(&came(500, "500 Internal Server Error", "b")).unwrap_err();
    assert_eq!(told(&other), (502, "Copilot API error (500 Internal Server Error): b"));
    let lost = check_chat_reply(&Reply::Lost("dns".to_string())).unwrap_err();
    assert_eq!(told(&lost), (502, "dns"));
}

#[test]
fn a_served_chat_request_is_noted() {
    let mut state = state_with(None, false);
    let ctx = ready(extract_context(&mut state, None));
    let reply = came(200, "200 OK", "");
    let time = "12:00:00".to_string();
    finish_chat_at(&mut state, &ctx, "/e", "m", &reply, 77, time).unwrap();
    assert_eq!(state.store.get_account(ID_A).unwrap().last_used, Some(77));
    assert_eq!(state.store.get_account(ID_B).unwrap().last_used, None);
    let entry: &TrafficLogEntry = &state.traffic_logs[0];
    assert_eq!(entry.time, "12:00:00");
    assert_eq!(entry.method, "POST");
    assert_eq!(entry.endpoint, "/e");
    assert_eq!(entry.model, "m");
    assert_eq!(entry.account, "aaaaaaaa");
    assert_eq!((entry.status, entry.tokens), (200, None));

    finish_chat_completions(&mut state, &ctx, "m", &reply).unwrap();
    finish_messages(&mut state, &ctx, "m", &reply).unwrap();
    assert_eq!(state.traffic_logs[1].endpoint, "/v1/chat/completions");
    assert_eq!(state.traffic_logs[2].endpoint, "/v1/messages");
    let time: Vec<char> = state.traffic_logs[1].time.chars().collect();
    assert_eq!((time.len(), time[2], time[5]), (8, ':', ':'));
}

#[test]
fn a_refused_chat_request_leaves_no_trace() {
    let mut state = state_with(None, false);
    let ctx = ready(extract_context(&mut state, None));
    let refused =
        finish_messages(&mut state, &ctx, "m", &came(503, "503 Service Unavailable", "")).unwrap_err();
    assert_eq!(told(&refused), (502, "Copilot API error (503 Service Unavailable): "));
    assert!(state.traffic_logs.is_empty());
    assert_eq!(state.store.get_account(ID_A).unwrap().last_used, None);
}

#[test]
fn other_replies_are_taken_in() {
    let mut state = state_with(None, false);
    let ctx = ready(extract_context(&mut state, None));
    finish_responses_at(&mut state, &ctx, &came(200, "200 OK", ""), 5).unwrap();
    assert_eq!(state.store.get_account(ID_A).unwrap().last_used, Some(5));
    assert!(state.traffic_logs.is_empty());
    let refused = finish_responses(&mut state, &ctx, &came(404, "404 Not Found", "b")).unwrap_err();
    assert_eq!(told(&refused), (502, "Responses API error (404 Not Found): b"));
    let lost = finish_responses(&mut state, &ctx, &Reply::Lost("400: x".to_string())).unwrap_err();
    assert_eq!(told(&lost), (502, "400: x"));
    assert!(finish_embeddings(&came(201, "201 Created", "")).is_ok());
    let refused = finish_embeddings(&came(404, "404 Not Found", "b")).unwrap_err();
    assert_eq!(told(&refused), (502, "Embeddings error (404 Not Found): b"));
}

#[test]
fn ids_are_cut_to_eight_bytes() {
    assert_eq!(short_id(ID_A), "aaaaaaaa");
    assert_eq!(short_id("abc"), "abc");
    assert_eq!(short_id(""), "");
    assert_eq!(short_id("éééééé"), "éééé");
}

#[test]
fn streams_are_answered_with_headers() {
    let headers = stream_headers(true);
    assert_eq!(
        headers,
        [
            ("Content-Type".to_string(), "text/event-stream".to_string()),
            ("Cache-Control".to_string(), "no-cache".to_string()),
            ("Connection".to_string(), "keep-alive".to_string()),
        ]
    );
    assert_eq!(stream_headers(false).len(), 2);
}

#[test]
fn the_log_keeps_the_newest_lines() {
    let mut state = state_with(None, false);
    for i in 0..503 {
        state.add_traffic_log(TrafficLogEntry {
            time: i.to_string(),
            method: String::new(),
            endpoint: String::new(),
            model: String::new(),
            account: String::new(),
            status: 200,
            tokens: None,
        });
    }
    assert_eq!(state.traffic_logs.len(), 500);
    assert_eq!(state.traffic_logs[0].time, "3");
    assert_eq!(state.traffic_logs[499].time, "502");
}

#[test]
fn models_are_listed() {
    let mut state = state_with(None, false);
    let listed = handle_models(&mut state, None).unwrap();
    assert_eq!(listed.to_text(), r#"{"data":[],"object":"list"}"#);
    state.models = Some(ModelsResponse {
        data: vec![ModelInfo {
            id: "gpt-4o".to_string(),
            name: "GPT-4o".to_string(),
            vendor: "Azure OpenAI".to_string(),
            version: "v".to_string(),
            preview: false,
            model_picker_enabled: true,
            capabilities: ModelCapabilities {
                family: "f".to_string(),
                limits: ModelLimits {
                    max_context_window_tokens: None,
                    max_output_tokens: None,
                    max_prompt_tokens: None,
                },
                cap_type: "chat".to_string(),
            },
        }],
    });
    assert_eq!(
        handle_models(&mut state, None).unwrap().to_text(),
        r#"{"data":[{"created":0,"display_name":"GPT-4o","id":"gpt-4o","object":"model","owned_by":"Azure OpenAI"}],"object":"list"}"#
    );
}

#[test]
fn token_and_usage_are_of_the_first_active_account() {
    let state = state_with(None, false);
    assert_eq!(handle_token(&state).to_text(), r#"{"token":"tok-a"}"#);
    let request = handle_usage(&state).ok().unwrap();
    assert_eq!(header(&request, "Authorization"), Some("token gh-a"));
    let empty = AppState::new(ServerConfig::default(), AccountStore::new());
    assert_eq!(handle_token(&empty).to_text(), r#"{"token":""}"#);
    let refused = handle_usage(&empty).err().unwrap();
    assert_eq!(told(&refused), (503, "No active accounts"));
}

#[test]
fn with_keys_the_models_need_one() {
    let mut state = state_with(None, false);
    let key = state.store.add_api_key("k".to_string()).key;
    for shown in [None, Some("Bearer rc-other")] {
        let refused = handle_models(&mut state, shown).err().unwrap();
        assert_eq!(told(&refused), (401, "Unauthorized"));
    }
    let entry = &state.store.get_api_keys()[0];
    assert_eq!((entry.request_count, entry.last_used), (0, None));
    let shown = format!("Bearer {}", key);
    assert!(handle_models_at(&mut state, Some(&shown), 5).is_ok());
    let entry = &state.store.get_api_keys()[0];
    assert_eq!((entry.request_count, entry.last_used), (1, Some(5)));
    assert!(handle_models(&mut state, Some(&shown)).is_ok());
    assert!(state.store.get_api_keys()[0].last_used.unwrap() > 5);
}

#[test]
fn token_and_usage_are_told_without_a_key() {
    let mut state = state_with(None, false);
    state.store.add_api_key("k".to_string());
    assert_eq!(handle_token(&state).to_text(), r#"{"token":"tok-a"}"#);
    assert!(handle_usage(&state).is_ok());
}

#[test]
fn a_reply_that_cannot_be_read_is_the_services_error() {
    let read = read_reply(Ok(parse(r#"{"a":[1,2.50]}"#))).ok().unwrap();
    assert_eq!(read.to_text(), parse(r#"{"a":[1,2.50]}"#).to_text());
    let refused = read_reply(Err("400: not JSON".to_string())).err().unwrap();
    assert_eq!(told(&refused), (502, "400: not JSON"));
}

#[test]
fn an_id_is_cut_only_for_the_log() {
    let mut state = state_with(None, false);
    let mut ctx = ready(extract_context(&mut state, None));
    ctx.account_id = Some("aaaaaaaé".to_string());
    let reply = came(500, "500 Internal Server Error", "b");
    let refused = finish_chat_completions(&mut state, &ctx, "m", &reply).unwrap_err();
    assert_eq!(told(&refused), (502, "Copilot API error (500 Internal Server Error): b"));
}

#[test]
fn the_default_configuration() {
    let config = ServerConfig::default();
    assert_eq!(config.port, 4141);
    assert_eq!(config.account_type, "individual");
    assert_eq!(config.rate_limit_seconds, None);
    assert!(!config.rate_limit_wait && !config.verbose && !config.show_token);
}
