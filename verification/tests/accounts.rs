use rotation_copilot::account_store::{
    AccountStatus, AccountStore, AccountsData, ApiKeyEntry, CopilotAccount,
};
use rotation_copilot::ids::api_key_from;

fn account(id: &str, status: AccountStatus, token: Option<&str>) -> CopilotAccount {
    CopilotAccount {
        id: id.to_string(),
        label: format!("label {}", id),
        github_token: format!("gh {}", id),
        copilot_token: token.map(str::to_owned),
        copilot_token_expiry: None,
        account_type: "individual".to_string(),
        status,
        last_used: None,
        error_count: 0,
        created_at: 1,
    }
}

fn store_of(accounts: Vec<CopilotAccount>, rotation_index: usize) -> AccountStore {
    let mut store = AccountStore::new();
    store.load(Some(AccountsData { accounts, rotation_index, api_keys: vec![] }));
    store
}

fn next_ids(store: &mut AccountStore, count: usize) -> Vec<String> {
    (0..count).map(|_| store.get_next_rotation_account().unwrap().id).collect()
}

#[test]
fn requests_go_around_the_active_accounts() {
    let mut store = store_of(
        vec![
            account("a", AccountStatus::Active, Some("t")),
            account("b", AccountStatus::Inactive, Some("t")),
            account("c", AccountStatus::Active, None),
            account("d", AccountStatus::Active, Some("t")),
            account("e", AccountStatus::Active, Some("t")),
        ],
        0,
    );
    assert_eq!(next_ids(&mut store, 7), ["a", "d", "e", "a", "d", "e", "a"]);
    assert_eq!(store.get_active_accounts().len(), 3);
    assert_eq!(store.get_all_accounts().len(), 5);
}

#[test]
fn a_turn_beyond_the_accounts_is_taken_around() {
    let accounts = || {
        vec![
            account("a", AccountStatus::Active, Some("t")),
            account("b", AccountStatus::Active, Some("t")),
        ]
    };
    let mut store = store_of(accounts(), 7);
    assert_eq!(next_ids(&mut store, 3), ["b", "a", "b"]);
    let mut last = store_of(accounts(), usize::MAX);
    assert_eq!(next_ids(&mut last, 2), ["b", "a"]);
}

#[test]
fn no_active_account_gives_none() {
    let mut store = store_of(vec![account("a", AccountStatus::ReAuth, Some("t"))], 3);
    assert!(store.get_next_rotation_account().is_none());
    assert_eq!(store.data.rotation_index, 3);
    assert!(AccountStore::new().get_next_rotation_account().is_none());
}

#[test]
fn the_third_error_ends_the_turns() {
    let mut store = store_of(
        vec![
            account("a", AccountStatus::Active, Some("t")),
            account("b", AccountStatus::Active, Some("t")),
        ],
        0,
    );
    store.mark_account_error("a");
    store.mark_account_error("a");
    assert_eq!(store.get_account("a").unwrap().status, AccountStatus::Active);
    assert_eq!(next_ids(&mut store, 2), ["a", "b"]);
    store.mark_account_error("a");
    let failed = store.get_account("a").unwrap();
    assert_eq!(failed.status, AccountStatus::Error);
    assert_eq!(failed.error_count, 3);
    assert_eq!(next_ids(&mut store, 2), ["b", "b"]);
    store.mark_account_error("unknown");
    assert_eq!(store.get_account("b").unwrap().error_count, 0);
}

#[test]
fn accounts_are_added_updated_and_removed() {
    let mut store = AccountStore::new();
    let added = store.add_account("L".to_string(), "G".to_string(), "business".to_string());
    assert_eq!(added.id.len(), 36);
    assert_eq!(added.status, AccountStatus::Inactive);
    assert_eq!(added.copilot_token, None);
    assert_eq!(added.copilot_token_expiry, None);
    assert_eq!(added.last_used, None);
    assert_eq!(added.error_count, 0);
    assert!(added.created_at > 1_600_000_000_000);
    assert_eq!(store.get_account(&added.id).unwrap().label, "L");

    let mut updated = added.clone();
    updated.label = "M".to_string();
    store.update_account(updated);
    assert_eq!(store.get_account(&added.id).unwrap().label, "M");

    let stranger = account("x", AccountStatus::Active, Some("t"));
    store.update_account(stranger);
    assert_eq!(store.get_all_accounts().len(), 1);

    assert!(store.remove_account(&added.id));
    assert!(!store.remove_account(&added.id));
    assert!(store.get_account(&added.id).is_none());
}

#[test]
fn an_account_is_stored_under_the_given_id() {
    let mut store = AccountStore::new();
    let made = store.add_account_with(
        "id-1".to_string(),
        42,
        "L".to_string(),
        "G".to_string(),
        "individual".to_string(),
    );
    assert_eq!((made.id.as_str(), made.created_at), ("id-1", 42));
}

#[test]
fn a_use_is_noted() {
    let mut store = store_of(vec![account("a", AccountStatus::Active, Some("t"))], 0);
    store.mark_account_used_at("a", 99);
    assert_eq!(store.get_account("a").unwrap().last_used, Some(99));
    store.mark_account_used("a");
    assert!(store.get_account("a").unwrap().last_used.unwrap() > 1_600_000_000_000);
    store.mark_account_used_at("b", 1);
    assert_eq!(store.get_all_accounts().len(), 1);
}

#[test]
fn keys_are_made_used_and_revoked() {
    let mut store = AccountStore::new();
    assert!(!store.has_api_keys());
    let made: ApiKeyEntry = store.add_api_key("mine".to_string());
    assert!(store.has_api_keys());
    assert!(made.key.starts_with("rc-"));
    assert_eq!(made.key.len(), 35);
    assert!(made.key[3..].chars().all(|c| c.is_ascii_digit() || ('a'..='f').contains(&c)));
    assert_eq!((made.request_count, made.last_used), (0, None));

    assert_eq!(store.validate_api_key(&made.key).unwrap().label, "mine");
    assert!(store.validate_api_key("rc-other").is_none());

    store.record_api_key_usage_at(&made.key, 7);
    store.record_api_key_usage(&made.key);
    let used = store.validate_api_key(&made.key).unwrap();
    assert_eq!(used.request_count, 2);
    assert!(used.last_used.unwrap() > 7);

    assert!(store.remove_api_key(&made.key));
    assert!(!store.remove_api_key(&made.key));
    assert!(store.validate_api_key(&made.key).is_none());
    assert!(store.get_api_keys().is_empty());
}

#[test]
fn a_request_counts_under_its_own_key() {
    let mut store = AccountStore::new();
    let first = store.add_api_key_with("11111111-1", 1, "one".to_string());
    let second = store.add_api_key_with("22222222-2", 2, "two".to_string());
    assert_eq!(first.key, "rc-111111111");
    store.record_api_key_usage_at(&second.key, 50);
    let keys = store.get_api_keys();
    assert_eq!((keys[0].request_count, keys[1].request_count), (0, 1));
    assert_eq!(keys[1].last_used, Some(50));
}

#[test]
fn a_key_is_made_of_an_identifier() {
    assert_eq!(
        api_key_from("0a1b2c3d-4e5f-4a6b-8c7d-9e0f1a2b3c4d"),
        "rc-0a1b2c3d4e5f4a6b8c7d9e0f1a2b3c4d"
    );
}

#[test]
fn nothing_on_disk_changes_nothing() {
    let mut store = store_of(vec![account("a", AccountStatus::Active, Some("t"))], 1);
    store.load(None);
    assert_eq!(store.get_all_accounts().len(), 1);
    store.load(Some(AccountsData::default()));
    assert!(store.get_all_accounts().is_empty());
}

#[test]
fn statuses_have_names() {
    assert_eq!(AccountStatus::Active.to_string(), "active");
    assert_eq!(AccountStatus::Inactive.to_string(), "inactive");
    assert_eq!(AccountStatus::Error.to_string(), "error");
    assert_eq!(AccountStatus::ReAuth.to_string(), "re-auth");
}

#[test]
fn ids_stay_as_they_are() {
    let mut store = store_of(
        vec![
            account("a", AccountStatus::Active, Some("t")),
            account("b", AccountStatus::Active, Some("t")),
        ],
        0,
    );
    store.mark_account_used_at("a", 1);
    store.mark_account_error("b");
    store.update_account(account("a", AccountStatus::Error, None));
    let ids: Vec<String> = store.get_all_accounts().into_iter().map(|a| a.id).collect();
    assert_eq!(ids, ["a", "b"]);
    let added = store.add_account("n".to_string(), "g".to_string(), "individual".to_string());
    assert!(added.id != "a" && added.id != "b");
}
