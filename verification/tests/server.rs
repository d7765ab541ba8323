use rotation_copilot::account_store::{AccountStatus, AccountStore, CopilotAccount};
use rotation_copilot::server::{
    activate_account, add_start_account, handle_health, models_request, refresh_pause,
    refresh_seconds, refresh_step, refresh_targets, start_config, store_refreshed, RefreshStep,
};
use rotation_copilot::services::copilot::CopilotTokenResponse;
use rotation_copilot::state::AppState;

fn token(refresh_in: u64) -> CopilotTokenResponse {
    CopilotTokenResponse { token: "tok".to_string(), expires_at: 10, refresh_in }
}

fn add(store: &mut AccountStore, id: &str, status: AccountStatus) -> CopilotAccount {
    let made = store.add_account_with(
        id.to_string(),
        0,
        "l".to_string(),
        "g".to_string(),
        "individual".to_string(),
    );
    let mut changed = made.clone();
    changed.status = status;
    store.update_account(changed);
    made
}

fn some(text: &str) -> Option<String> {
    Some(text.to_string())
}

#[test]
fn the_configuration_is_taken_from_the_command_line() {
    let config = start_config(8080, "business", Some(2), true, true);
    assert_eq!(config.port, 8080);
    assert_eq!(config.account_type, "business");
    assert_eq!(config.rate_limit_seconds, Some(2));
    assert!(config.rate_limit_wait && config.verbose);
    assert!(!config.manual_approve && !config.show_token && !config.single_account);
}

#[test]
fn the_server_starts_with_an_account() {
    let mut store = AccountStore::new();
    let given = add_start_account(&mut store, &some("ghp"), &some("old"), "business").unwrap();
    assert_eq!(given.label, "CLI Account");
    assert_eq!(given.github_token, "ghp");
    assert_eq!(given.account_type, "business");
    assert!(add_start_account(&mut store, &None, &some("old"), "business").is_none());

    let mut empty = AccountStore::new();
    assert!(add_start_account(&mut empty, &None, &None, "individual").is_none());
    assert!(add_start_account(&mut empty, &None, &some(" \n"), "individual").is_none());
    let saved = add_start_account(&mut empty, &None, &some("old\n"), "individual").unwrap();
    assert_eq!((saved.label.as_str(), saved.github_token.as_str()), ("Default", "old"));
    activate_account(&mut empty, saved, token(1500));
    assert_eq!(empty.get_active_accounts()[0].copilot_token_expiry, Some(10_000));
}

#[test]
fn active_and_inactive_accounts_are_refreshed() {
    let mut store = AccountStore::new();
    add(&mut store, "a", AccountStatus::Active);
    add(&mut store, "b", AccountStatus::Error);
    add(&mut store, "c", AccountStatus::Inactive);
    add(&mut store, "d", AccountStatus::ReAuth);
    let ids: Vec<String> = refresh_targets(&store).into_iter().map(|a| a.id).collect();
    assert_eq!(ids, ["a", "c"]);
}

#[test]
fn tokens_are_refreshed_a_minute_early() {
    assert_eq!(refresh_seconds(1500), 1440);
    assert_eq!(refresh_seconds(301), 241);
    assert_eq!(refresh_seconds(300), 240);
    assert_eq!(refresh_seconds(u64::MAX), u64::MAX - 60);
    assert_eq!(refresh_seconds(100), 240);
}

#[test]
fn tokens_are_refreshed_before_they_end() {
    assert_eq!(refresh_pause(1440, 10_000, 8_200), 1440);
    assert_eq!(refresh_pause(1440, 10_000, 8_520), 1440);
    assert_eq!(refresh_pause(1440, 10_000, 8_559), 1440);
    assert_eq!(refresh_pause(1440, 10_000, 8_560), 1380);
    assert_eq!(refresh_pause(1440, 10_000, 9_000), 940);
    assert_eq!(refresh_pause(240, 10_000, 9_759), 240);
    assert_eq!(refresh_pause(240, 10_000, 9_900), 40);
    assert_eq!(refresh_pause(240, 10_000, 9_940), 30);
    assert_eq!(refresh_pause(240, 10_000, 9_999), 0);
    for now in 0..10_000 {
        assert!(now + refresh_pause(1440, 10_000, now) < 10_000);
    }
    assert_eq!(refresh_pause(1440, 10_000, 10_000), 1440);
    assert_eq!(refresh_pause(1440, 10_000, 20_000), 1440);
}

#[test]
fn a_refresh_goes_on_after_its_first_token() {
    let after = |seconds: u64, period: u64| RefreshStep::After { seconds, period };
    let mut store = AccountStore::new();
    add(&mut store, "a", AccountStatus::Inactive);
    assert_eq!(refresh_step(&mut store, "a", None, None, 0), RefreshStep::Stop);
    assert_eq!(store.get_account("a").unwrap().error_count, 0);

    let mut given = token(1500);
    given.expires_at = 9_800;
    let step = refresh_step(&mut store, "a", None, Some(given), 8_000);
    assert_eq!(step, after(1440, 1440));
    assert_eq!(store.get_active_accounts().len(), 1);

    for _ in 0..3 {
        let step = refresh_step(&mut store, "a", Some(1440), None, 9_440);
        assert_eq!(step, after(1440, 1440));
    }
    assert_eq!(store.get_account("a").unwrap().status, AccountStatus::Error);
    assert!(store.get_active_accounts().is_empty());

    let mut long = token(3000);
    long.expires_at = 99_999;
    let step = refresh_step(&mut store, "a", Some(1440), Some(long), 9_900);
    assert_eq!(step, after(1440, 1440));

    let mut short = token(9000);
    short.expires_at = 10_500;
    let step = refresh_step(&mut store, "a", Some(1440), Some(short), 10_000);
    assert_eq!(step, after(440, 1440));
    let back = store.get_account("a").unwrap();
    assert_eq!((back.status, back.error_count), (AccountStatus::Active, 0));
}

#[test]
fn an_account_removed_meanwhile_stays_removed() {
    let mut store = AccountStore::new();
    add(&mut store, "a", AccountStatus::Inactive);
    store.remove_account("a");
    store_refreshed(&mut store, "a", token(1500));
    let step = refresh_step(&mut store, "a", Some(240), None, 0);
    assert_eq!(step, RefreshStep::After { seconds: 240, period: 240 });
    assert!(store.get_all_accounts().is_empty());
}

#[test]
fn models_are_asked_for_by_the_first_active_account() {
    let mut state = AppState::new(
        start_config(4141, "individual", None, false, false),
        AccountStore::new(),
    );
    assert!(models_request(&state).is_none());
    let made = add(&mut state.store, "a", AccountStatus::Inactive);
    activate_account(&mut state.store, made, token(1500));
    state.vscode_version = "1.99.0".to_string();
    let request = models_request(&state).unwrap();
    assert_eq!(request.url, "https://api.githubcopilot.com/models");
    assert_eq!(request.headers[0].1, "Bearer tok");
    assert_eq!(request.headers[3].1, "vscode/1.99.0");
}

#[test]
fn health_is_told() {
    let mut store = AccountStore::new();
    let made = add(&mut store, "a", AccountStatus::Inactive);
    activate_account(&mut store, made, token(1500));
    store.add_api_key("k".to_string());
    assert_eq!(
        handle_health(&store, "1.0.0").to_text(),
        r#"{"accounts":{"active":1,"total":1},"api_keys_required":true,"status":"ok","version":"1.0.0"}"#
    );
    assert_eq!(
        handle_health(&AccountStore::new(), "1.0.0").to_text(),
        r#"{"accounts":{"active":0,"total":0},"api_keys_required":false,"status":"ok","version":"1.0.0"}"#
    );
}
