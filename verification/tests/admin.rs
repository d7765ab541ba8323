use rotation_copilot::account_store::{AccountStatus, AccountStore, ApiKeyEntry};
use rotation_copilot::routes::admin::{
    add_account, add_account_with, create_api_key, create_api_key_with, finish_account,
    finish_reauth, get_stats, list_accounts, list_api_keys, polled_token, reauth_account,
    remove_account, revoke_api_key, start_device_code, start_device_code_at, token_source,
    AddAccountRequest, CreateKeyRequest, DeviceCodeRequest, OAuthStore, TokenSource,
};
use rotation_copilot::routes::ApiError;
use rotation_copilot::services::copilot::CopilotTokenResponse;
use rotation_copilot::services::github::{DeviceCodeResponse, GitHubUser};

fn told(error: &ApiError) -> (u16, &str) {
    (error.status, error.message.as_str())
}

fn device_code(code: &str) -> DeviceCodeResponse {
    DeviceCodeResponse {
        device_code: code.to_string(),
        user_code: "AB-CD".to_string(),
        verification_uri: "https://github.com/login/device".to_string(),
        expires_in: 899,
        interval: 5,
    }
}

fn request(token: Option<&str>, code: Option<&str>) -> AddAccountRequest {
    AddAccountRequest {
        label: None,
        account_type: None,
        github_token: token.map(str::to_owned),
        device_code: code.map(str::to_owned),
    }
}

fn token(expires_at: u64) -> CopilotTokenResponse {
    CopilotTokenResponse { token: "tok".to_string(), expires_at, refresh_in: 1500 }
}

fn user(login: &str) -> Option<GitHubUser> {
    Some(GitHubUser { login: login.to_string() })
}

#[test]
fn a_device_code_is_used_once() {
    let mut sessions = OAuthStore::new();
    let body = DeviceCodeRequest { account_type: None };
    let answer = start_device_code(&mut sessions, &body, &Ok(device_code("dc"))).ok().unwrap();
    assert_eq!(
        answer.to_text(),
        r#"{"device_code":"dc","expires_in":899,"interval":5,"user_code":"AB-CD","verification_uri":"https://github.com/login/device"}"#
    );
    let source = token_source(&mut sessions, &request(None, Some("dc"))).unwrap();
    assert!(matches!(source, TokenSource::Polled(code) if code == "dc"));
    let refused = token_source(&mut sessions, &request(None, Some("dc"))).unwrap_err();
    assert_eq!(told(&refused), (400, "Device code expired or not found"));
}

#[test]
fn a_failed_poll_is_the_callers_error() {
    assert_eq!(polled_token(Ok("gho".to_string())).ok().as_deref(), Some("gho"));
    let refused = polled_token(Err("access_denied".to_string())).unwrap_err();
    assert_eq!(told(&refused), (400, "access_denied"));
}

#[test]
fn a_failed_start_is_told() {
    let mut sessions = OAuthStore::new();
    let body = DeviceCodeRequest { account_type: Some("business".to_string()) };
    let refused =
        start_device_code(&mut sessions, &body, &Err("no".to_string())).err().unwrap();
    assert_eq!(told(&refused), (502, "no"));
}

#[test]
fn sessions_end_after_fifteen_minutes() {
    let body = DeviceCodeRequest { account_type: None };
    let mut sessions = OAuthStore::new();
    start_device_code_at(&mut sessions, &body, &Ok(device_code("a")), 1_000).ok().unwrap();
    start_device_code_at(&mut sessions, &body, &Ok(device_code("b")), 2_000).ok().unwrap();
    start_device_code_at(&mut sessions, &body, &Ok(device_code("a")), 1_500).ok().unwrap();
    sessions.purge_at(1_500 + 899_999);
    sessions.purge_at(1_500 + 900_000);
    assert!(!sessions.remove("a"));
    assert!(sessions.remove("b"));
    assert!(!sessions.remove("b"));
    start_device_code_at(&mut sessions, &body, &Ok(device_code("old")), 0).ok().unwrap();
    start_device_code(&mut sessions, &body, &Ok(device_code("new"))).ok().unwrap();
    sessions.purge();
    assert!(!sessions.remove("old"));
    assert!(sessions.remove("new"));
}

#[test]
fn a_token_is_given_or_polled_for() {
    let mut sessions = OAuthStore::new();
    let given = token_source(&mut sessions, &request(Some("ghp"), Some("dc"))).unwrap();
    assert!(matches!(given, TokenSource::Given(token) if token == "ghp"));
    let refused = token_source(&mut sessions, &request(None, None)).unwrap_err();
    assert_eq!(told(&refused), (400, "Provide githubToken or deviceCode"));
}

#[test]
fn an_account_is_added_and_gets_its_token() {
    let mut store = AccountStore::new();
    let body = request(Some("ghp"), None);
    let added = add_account(&mut store, &body, &user("octo"), "ghp");
    assert_eq!(added.label, "octo (Account)");
    assert_eq!(added.account_type, "individual");
    let id = added.id.clone();
    let answer = finish_account(&mut store, added, Some(token(1_700_000_000)));
    assert_eq!(
        answer.to_text(),
        format!(r#"{{"id":"{}","label":"octo (Account)","status":"active"}}"#, id)
    );
    let stored = store.get_account(&id).unwrap();
    assert_eq!(stored.copilot_token.as_deref(), Some("tok"));
    assert_eq!(stored.copilot_token_expiry, Some(1_700_000_000_000));
    assert_eq!(stored.status, AccountStatus::Active);
}

#[test]
fn an_account_without_a_token_is_kept() {
    let mut store = AccountStore::new();
    let mut body = request(Some("ghp"), None);
    body.label = Some("Work".to_string());
    body.account_type = Some("enterprise".to_string());
    let added = add_account_with(&mut store, &body, &None, "ghp", "i".to_string(), 3);
    assert_eq!((added.label.as_str(), added.created_at), ("Work", 3));
    assert_eq!(added.account_type, "enterprise");
    let answer = finish_account(&mut store, added, None);
    assert_eq!(
        answer.to_text(),
        r#"{"id":"i","label":"Work","status":"inactive","warning":"GitHub token saved but Copilot token fetch failed. Try re-auth."}"#
    );
    assert_eq!(store.get_account("i").unwrap().copilot_token, None);
    let blank = add_account(&mut store, &body, &user(""), "ghp");
    assert_eq!(blank.label, "Work");
}

#[test]
fn accounts_are_listed_without_tokens() {
    let mut store = AccountStore::new();
    let body = request(Some("secret-gh"), None);
    let added = add_account_with(&mut store, &body, &None, "secret-gh", "i".to_string(), 3);
    finish_account(&mut store, added, Some(token(1)));
    store.mark_account_used_at("i", 8);
    let answer = list_accounts(&store).to_text();
    assert_eq!(
        answer,
        r#"[{"accountType":"individual","createdAt":3,"errorCount":0,"id":"i","label":"Account","lastUsed":8,"status":"active"}]"#
    );
    assert_eq!(list_accounts(&AccountStore::new()).to_text(), "[]");
}

#[test]
fn accounts_are_removed_by_id() {
    let mut store = AccountStore::new();
    add_account_with(&mut store, &request(None, None), &None, "g", "i".to_string(), 3);
    assert_eq!(remove_account(&mut store, "i").ok().unwrap().to_text(), r#"{"success":true}"#);
    let refused = remove_account(&mut store, "i").err().unwrap();
    assert_eq!(told(&refused), (404, "Account not found"));
}

#[test]
fn an_account_is_authorized_anew() {
    let mut store = AccountStore::new();
    add_account_with(&mut store, &request(None, None), &None, "g", "i".to_string(), 3);
    for _ in 0..3 {
        store.mark_account_error("i");
    }
    let refused = reauth_account(&store, "j").err().unwrap();
    assert_eq!(told(&refused), (404, "Account not found"));

    let (account, asked) = reauth_account(&store, "i").ok().unwrap();
    assert_eq!(asked.url, "https://api.github.com/copilot_internal/v2/token");
    let refused = finish_reauth(&mut store, account, Err("gone".to_string())).err().unwrap();
    assert_eq!(told(&refused), (500, "gone"));
    assert_eq!(store.get_account("i").unwrap().status, AccountStatus::Error);

    let (account, _) = reauth_account(&store, "i").ok().unwrap();
    let answer = finish_reauth(&mut store, account, Ok(token(2))).ok().unwrap();
    assert_eq!(answer.to_text(), r#"{"id":"i","status":"active"}"#);
    let stored = store.get_account("i").unwrap();
    assert_eq!((stored.error_count, stored.copilot_token_expiry), (0, Some(2000)));
    assert_eq!(store.get_active_accounts().len(), 1);
}

#[test]
fn an_expiry_beyond_a_word_wraps() {
    let mut store = AccountStore::new();
    let added = add_account_with(&mut store, &request(None, None), &None, "g", "i".to_string(), 3);
    finish_account(&mut store, added, Some(token(u64::MAX)));
    let wrapped = u64::MAX.wrapping_mul(1000);
    assert_eq!(store.get_account("i").unwrap().copilot_token_expiry, Some(wrapped));
}

#[test]
fn keys_are_administered() {
    let mut store = AccountStore::new();
    let answer = create_api_key_with(
        &mut store,
        &CreateKeyRequest { label: None },
        "0a1b2c3d-4e5f-4a6b-8c7d-9e0f1a2b3c4d",
        4,
    );
    let text = r#"{"createdAt":4,"key":"rc-0a1b2c3d4e5f4a6b8c7d9e0f1a2b3c4d","label":"User Key","lastUsed":null,"requestCount":0}"#;
    assert_eq!(answer.to_text(), text);
    assert_eq!(list_api_keys(&store).to_text(), format!("[{}]", text));
    let other = create_api_key(&mut store, &CreateKeyRequest { label: Some("x".to_string()) });
    assert_eq!(other.text_at("label"), Some("x"));
    assert_eq!(other.text_at("key").unwrap().len(), 35);

    let key = "rc-0a1b2c3d4e5f4a6b8c7d9e0f1a2b3c4d";
    assert_eq!(revoke_api_key(&mut store, key).ok().unwrap().to_text(), r#"{"success":true}"#);
    let refused = revoke_api_key(&mut store, key).err().unwrap();
    assert_eq!(told(&refused), (404, "Key not found"));
    assert_eq!(store.get_api_keys().len(), 1);
}

#[test]
fn statistics_count_accounts_keys_and_requests() {
    let mut store = AccountStore::new();
    let id = "abcdefgh-ijkl".to_string();
    let added = add_account_with(&mut store, &request(None, None), &None, "g", id, 3);
    finish_account(&mut store, added, Some(token(1)));
    add_account_with(&mut store, &request(None, None), &None, "g", "short".to_string(), 3);
    let key = |name: &str, request_count: u64| ApiKeyEntry {
        key: name.to_string(),
        label: String::new(),
        created_at: 0,
        last_used: None,
        request_count,
    };
    store.data.api_keys = vec![key("a", 2), key("b", 40)];
    assert_eq!(
        get_stats(&store).to_text(),
        r#"{"accounts":[{"errorCount":0,"id":"abcdefgh","label":"Account","lastUsed":null,"status":"active"},{"errorCount":0,"id":"short","label":"Account","lastUsed":null,"status":"inactive"}],"activeAccounts":1,"totalAccounts":2,"totalKeys":2,"totalRequests":42}"#
    );
    store.data.api_keys = vec![key("a", u64::MAX), key("b", 3)];
    assert_eq!(get_stats(&store).u64_at("totalRequests"), Some(2));
}
