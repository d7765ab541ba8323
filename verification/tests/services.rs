use rotation_copilot::json::Json;
use rotation_copilot::services::copilot::{
    api_request, check_chat_completions, check_copilot_token, check_embeddings, check_models,
    check_responses, create_chat_completions, create_chat_completions_with, create_embeddings,
    create_responses, get_copilot_token, get_models, payload_has_agent, payload_has_vision,
};
use rotation_copilot::services::github::{
    check_copilot_usage, check_device_code, check_github_user, get_copilot_usage, get_device_code,
    get_github_user, poll_access_token, poll_interval, poll_request, PollStep,
};
use rotation_copilot::services::{
    fetch_vscode_version, is_success, vscode_version_url, Method, ServiceRequest,
};
use rotation_copilot::state::{copilot_base_url, copilot_headers, github_headers};

fn parse(text: &str) -> Json {
    Json::parse(text).unwrap()
}

fn header<'a>(request: &'a ServiceRequest, name: &str) -> Option<&'a str> {
    request.headers.iter().find(|h| h.0 == name).map(|h| h.1.as_str())
}

#[test]
fn the_base_depends_on_the_account_type() {
    assert_eq!(copilot_base_url("individual"), "https://api.githubcopilot.com");
    assert_eq!(copilot_base_url("business"), "https://api.business.githubcopilot.com");
    assert_eq!(copilot_base_url("enterprise"), "https://api.enterprise.githubcopilot.com");
    assert_eq!(copilot_base_url("Business"), "https://api.githubcopilot.com");
}

#[test]
fn copilot_headers_name_token_and_version() {
    let headers = copilot_headers("tok", "1.2.3", true);
    let names: Vec<&str> = headers.iter().map(|h| h.0.as_str()).collect();
    assert_eq!(
        names,
        [
            "Authorization",
            "Content-Type",
            "Copilot-Integration-Id",
            "Editor-Version",
            "Editor-Plugin-Version",
            "User-Agent",
            "OpenAI-Intent",
            "X-GitHub-Api-Version",
            "X-Request-Id",
            "X-VSCode-User-Agent-Library-Version",
            "Copilot-Vision-Request",
        ]
    );
    assert_eq!(headers[0].1, "Bearer tok");
    assert_eq!(headers[3].1, "vscode/1.2.3");
    assert_eq!(headers[8].1.len(), 36);
    assert_eq!(headers[10].1, "true");
    assert_eq!(copilot_headers("tok", "1.2.3", false).len(), 10);
}

#[test]
fn github_headers_name_the_token() {
    let headers = github_headers("ghp");
    assert_eq!(headers.len(), 3);
    assert_eq!(headers[0], ("Authorization".to_string(), "token ghp".to_string()));
    assert_eq!(headers[1], ("Accept".to_string(), "application/json".to_string()));
    assert_eq!(headers[2], ("User-Agent".to_string(), "rotation-copilot".to_string()));
}

#[test]
fn a_token_is_asked_of_github() {
    let request = get_copilot_token("ghp");
    assert_eq!(request.method, Method::Get);
    assert_eq!(request.url, "https://api.github.com/copilot_internal/v2/token");
    assert_eq!(header(&request, "Authorization"), Some("token ghp"));
    assert!(request.body.is_none());
}

#[test]
fn requests_go_to_their_paths() {
    let body = parse(r#"{"input":"x"}"#);
    let models = get_models("t", "business", "1.0");
    assert_eq!(models.url, "https://api.business.githubcopilot.com/models");
    assert_eq!(models.method, Method::Get);
    let embeddings = create_embeddings("t", "individual", "1.0", &body);
    assert_eq!(embeddings.url, "https://api.githubcopilot.com/embeddings");
    assert_eq!(embeddings.method, Method::Post);
    assert_eq!(embeddings.body.as_ref().unwrap().to_text(), r#"{"input":"x"}"#);
    let responses = create_responses("t", "enterprise", "1.0", &body);
    assert_eq!(responses.url, "https://api.enterprise.githubcopilot.com/responses");
    let chat = create_chat_completions("t", "individual", "1.0", &body);
    assert_eq!(chat.url, "https://api.githubcopilot.com/chat/completions");
    assert_eq!(header(&chat, "X-Request-Id").unwrap().len(), 36);
    let made = api_request(Method::Get, "/x", "t", "individual", "1.0", false, None, "req");
    assert_eq!(header(&made, "X-Request-Id"), Some("req"));
}

#[test]
fn images_and_agents_are_told_in_headers() {
    let plain = parse(r#"{"messages":[{"role":"user","content":"hi"}]}"#);
    assert!(!payload_has_vision(&plain) && !payload_has_agent(&plain));
    let request = create_chat_completions_with("t", "individual", "1.0", &plain, "id");
    assert_eq!(header(&request, "Copilot-Vision-Request"), None);
    assert_eq!(header(&request, "X-Initiator"), None);

    let seen = parse(
        r#"{"messages":[{"role":"user","content":"a"},{"role":"user","content":[{"type":"text"},{"type":"image_url"}]}]}"#,
    );
    assert!(payload_has_vision(&seen) && !payload_has_agent(&seen));
    let request = create_chat_completions_with("t", "individual", "1.0", &seen, "id");
    assert_eq!(header(&request, "Copilot-Vision-Request"), Some("true"));

    for role in ["assistant", "tool"] {
        let spoken = parse(&format!(r#"{{"messages":[{{"role":"user"}},{{"role":"{}"}}]}}"#, role));
        assert!(payload_has_agent(&spoken) && !payload_has_vision(&spoken));
        let request = create_chat_completions_with("t", "individual", "1.0", &spoken, "id");
        assert_eq!(header(&request, "X-Initiator"), Some("agent"));
    }
    assert!(!payload_has_agent(&parse(r#"{"messages":{"role":"tool"}}"#)));
}

#[test]
fn failures_are_told_with_status_and_body() {
    assert!(is_success(200) && is_success(299) && !is_success(199) && !is_success(300));
    assert_eq!(check_copilot_token(200, "200 OK", ""), Ok(()));
    assert_eq!(
        check_copilot_token(401, "401 Unauthorized", "bad"),
        Err("Copilot token fetch failed (401 Unauthorized): bad".to_string())
    );
    assert_eq!(
        check_models(500, "500 Internal Server Error", ""),
        Err("Models fetch failed (500 Internal Server Error): ".to_string())
    );
    assert_eq!(
        check_embeddings(404, "404 Not Found", "x"),
        Err("Embeddings error (404 Not Found): x".to_string())
    );
    assert_eq!(
        check_responses(404, "404 Not Found", "x"),
        Err("Responses API error (404 Not Found): x".to_string())
    );
    assert_eq!(
        check_chat_completions(403, "403 Forbidden", "no"),
        Err("Copilot API error (403 Forbidden): no".to_string())
    );
}

#[test]
fn long_prompts_are_the_callers_error() {
    let told = Err("400: prompt is too long for model".to_string());
    assert_eq!(check_chat_completions(413, "413", ""), told);
    assert_eq!(check_chat_completions(400, "400", "x exceeds limit y"), told);
    assert_eq!(check_chat_completions(500, "500", "operation timed out"), told);
    assert_eq!(check_chat_completions(200, "200 OK", "exceeds limit"), Ok(()));
}

#[test]
fn the_device_flow_starts_and_polls() {
    let start = get_device_code();
    assert_eq!(start.method, Method::Post);
    assert_eq!(start.url, "https://github.com/login/device/code");
    assert_eq!(
        start.body.as_ref().unwrap().to_text(),
        r#"{"client_id":"Iv1.b507a08c87ecfe98","scope":"read:user"}"#
    );
    assert_eq!(header(&start, "Accept"), Some("application/json"));
    assert_eq!(check_device_code(200, ""), Ok(()));
    assert_eq!(check_device_code(500, "no"), Err("Device code request failed: no".to_string()));

    let poll = poll_request("dc");
    assert_eq!(poll.url, "https://github.com/login/oauth/access_token");
    assert_eq!(
        poll.body.as_ref().unwrap().to_text(),
        r#"{"client_id":"Iv1.b507a08c87ecfe98","device_code":"dc","grant_type":"urn:ietf:params:oauth:grant-type:device_code"}"#
    );
    assert_eq!(poll_interval(5), 6);
    assert_eq!(poll_interval(u64::MAX), 0);
}

#[test]
fn a_poll_ends_with_a_token_or_a_final_error() {
    let step = |text: &str| poll_access_token(&parse(text));
    assert!(matches!(step(r#"{"access_token":"t"}"#), PollStep::Token(t) if t == "t"));
    assert!(matches!(step(r#"{"access_token":"t","error":"expired_token"}"#), PollStep::Token(_)));
    assert!(matches!(step(r#"{"error":"authorization_pending"}"#), PollStep::Again(0)));
    assert!(matches!(step(r#"{"error":"slow_down"}"#), PollStep::Again(5)));
    assert!(matches!(step(r#"{"error":"else"}"#), PollStep::Again(0)));
    assert!(matches!(step(r#"{}"#), PollStep::Again(0)));
    assert!(
        matches!(step(r#"{"error":"expired_token"}"#), PollStep::Failed(m) if m == "Device code expired")
    );
    assert!(
        matches!(step(r#"{"error":"access_denied"}"#), PollStep::Failed(m) if m == "Access denied by user")
    );
}

#[test]
fn user_and_usage_are_asked_of_github() {
    assert_eq!(get_github_user("g").url, "https://api.github.com/user");
    assert_eq!(get_copilot_usage("g").url, "https://api.github.com/copilot_internal/user");
    assert_eq!(header(&get_copilot_usage("g"), "Authorization"), Some("token g"));
    assert_eq!(check_github_user(204), Ok(()));
    assert_eq!(check_github_user(404), Err("Failed to fetch GitHub user".to_string()));
    assert_eq!(check_copilot_usage(200), Ok(()));
    assert_eq!(check_copilot_usage(401), Err("Failed to fetch Copilot usage".to_string()));
}

#[test]
fn the_editor_version_is_told_or_assumed() {
    let reply = parse(r#"{"results":[{"Version":"1.99.3-2"}]}"#);
    assert_eq!(fetch_vscode_version(Some(&reply)), "1.99.3");
    for text in [r#"{}"#, r#"{"results":[]}"#, r#"{"results":[{"Version":5}]}"#] {
        assert_eq!(fetch_vscode_version(Some(&parse(text))), "1.114.0");
    }
    assert_eq!(fetch_vscode_version(None), "1.114.0");
    assert_eq!(
        vscode_version_url(),
        "https://aur.archlinux.org/rpc/v5/info?arg[]=visual-studio-code-bin"
    );
}
