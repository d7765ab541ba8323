//! How the server starts, keeps its tokens fresh, and tells of its health.

use vstd::prelude::*;
use vstd::string::*;

use crate::account_store::{
    activate, activated, becomes, failed, has_id, is_first_of, is_new_account, ready, refresh,
    refreshed, AccountStatus, AccountStore, CopilotAccount,
};
use crate::clock::is_reading;
use crate::ids::is_uuid;
use crate::json::{Json, Object, Tree};
use crate::seqs::{first, lemma_filter_take, lemma_position, update_first};
use crate::services::copilot::{get_models, CopilotTokenResponse};
use crate::services::{Method, ServiceRequest};
use crate::state::{base_url, copilot_header_views, AppState, ServerConfig};
use crate::text::{trim, trimmed};

verus! {

// ---------------------------------------------------------------------------
// Starting
// ---------------------------------------------------------------------------

/// The configuration that the server starts with.
pub fn start_config(
    port: u16,
    account_type: &str,
    rate_limit: Option<u64>,
    rate_limit_wait: bool,
    verbose: bool,
) -> (config: ServerConfig)
    ensures
        config.port == port,
        config.account_type@ == account_type@,
        !config.manual_approve,
        config.rate_limit_seconds == rate_limit,
        config.rate_limit_wait == rate_limit_wait,
        !config.show_token,
        config.verbose == verbose,
        !config.single_account,
{
    ServerConfig {
        port,
        account_type: account_type.to_owned(),
        manual_approve: false,
        rate_limit_seconds: rate_limit,
        rate_limit_wait,
        show_token: false,
        verbose,
        single_account: false,
    }
}

/// The label and the token of the account that the server starts with: the
/// token given on the command line, or else one saved earlier, where it is not
/// blank and no account is stored yet.
pub open spec fn start_account(
    given: Option<Seq<char>>,
    saved: Option<Seq<char>>,
    accounts: Seq<CopilotAccount>,
) -> Option<(Seq<char>, Seq<char>)> {
    match (given, saved) {
        (Some(token), _) => Some(("CLI Account"@, token)),
        (None, Some(text)) => if trim(text).len() > 0 && accounts.len() == 0 {
            Some(("Default"@, trim(text)))
        } else {
            None
        },
        (None, None) => None,
    }
}

/// The view of an optional text.
pub open spec fn given_text(text: &Option<String>) -> Option<Seq<char>> {
    match text {
        Some(t) => Some(t@),
        None => None,
    }
}

/// Stores the account that the server starts with, where there is one.
pub fn add_start_account(
    store: &mut AccountStore,
    given: &Option<String>,
    saved: &Option<String>,
    account_type: &str,
) -> (added: Option<CopilotAccount>)
    ensures
        match start_account(given_text(given), given_text(saved), old(store).accounts()) {
            Some((label, token)) => added matches Some(account) && {
                &&& is_uuid(account.id@)
                &&& is_reading(account.created_at)
                &&& is_new_account(
                    account,
                    account.id@,
                    account.label,
                    account.github_token,
                    account.account_type,
                    account.created_at,
                )
                &&& account.label@ == label
                &&& account.github_token@ == token
                &&& account.account_type@ == account_type@
                &&& final(store).accounts() == old(store).accounts().push(account)
            },
            None => added is None && final(store).accounts() == old(store).accounts(),
        },
        final(store).turn() == old(store).turn(),
        final(store).keys() == old(store).keys(),
{
    match (given, saved) {
        (Some(token), _) => Some(
            store.add_account("CLI Account".to_owned(), token.clone(), account_type.to_owned()),
        ),
        (None, Some(text)) => {
            let token: String = trimmed(text.as_str());
            if !token.as_str().is_empty() && store.data.accounts.is_empty() {
                Some(store.add_account("Default".to_owned(), token, account_type.to_owned()))
            } else {
                None
            }
        },
        (None, None) => None,
    }
}

/// Gives an account the token that the service has given for it.
pub fn activate_account(
    store: &mut AccountStore,
    account: CopilotAccount,
    response: CopilotTokenResponse,
)
    ensures
        final(store).accounts() == update_first(
            old(store).accounts(),
            has_id(account.id@),
            becomes(activated(account, response.token, response.expires_at)),
        ),
        final(store).turn() == old(store).turn(),
        final(store).keys() == old(store).keys(),
{
    let mut updated: CopilotAccount = account;
    activate(&mut updated, response.token, response.expires_at);
    store.update_account(updated);
}

// ---------------------------------------------------------------------------
// Keeping tokens fresh
// ---------------------------------------------------------------------------

/// An account whose token is kept fresh: active or inactive.
pub open spec fn is_refreshed() -> spec_fn(CopilotAccount) -> bool {
    |account: CopilotAccount|
        account.status == AccountStatus::Active || account.status == AccountStatus::Inactive
}

/// The accounts whose tokens are kept fresh.
pub fn refresh_targets(store: &AccountStore) -> (targets: Vec<CopilotAccount>)
    ensures
        targets@ == store.accounts().filter(is_refreshed()),
{
    let mut targets: Vec<CopilotAccount> = Vec::new();
    let count: usize = store.data.accounts.len();
    let mut i: usize = 0;
    proof {
        reveal(Seq::filter);
        assert(store.accounts().take(0).filter(is_refreshed()) =~= seq![]);
    }
    while i < count
        invariant
            i <= count,
            count == store.accounts().len(),
            targets@ == store.accounts().take(i as int).filter(is_refreshed()),
        decreases count - i,
    {
        proof {
            lemma_filter_take(store.accounts(), is_refreshed(), i as int);
        }
        let status: AccountStatus = store.data.accounts[i].status;
        if status == AccountStatus::Active || status == AccountStatus::Inactive {
            targets.push(store.data.accounts[i].clone());
        }
        i = i + 1;
    }
    proof {
        assert(store.accounts().take(count as int) =~= store.accounts());
    }
    targets
}

/// The seconds from one request for a token to the next: a minute less than the
/// service asks for, and at least four minutes.
pub open spec fn refresh_period(refresh_in: u64) -> u64 {
    if refresh_in <= 300 {
        240
    } else {
        (refresh_in - 60) as u64
    }
}

/// The seconds from one request for a token to the next.
pub fn refresh_seconds(refresh_in: u64) -> (seconds: u64)
    ensures
        seconds == refresh_period(refresh_in),
{
    let asked: u64 = if refresh_in < 300 {
        300
    } else {
        refresh_in
    };
    let early: u64 = asked - 60;
    if early < 60 {
        60
    } else {
        early
    }
}

/// The period of an account's requests for tokens: the one that its first token
/// set, or where there is none yet, the one that this token sets.
pub open spec fn kept_period(period: Option<u64>, refresh_in: u64) -> u64 {
    match period {
        Some(seconds) => seconds,
        None => refresh_period(refresh_in),
    }
}

/// The seconds to wait where the period is too long for a token that stands for
/// so many more: a minute less, or half of them where there are not more than a
/// minute's.
pub open spec fn shortened_wait(left: u64) -> u64 {
    if left > 60 {
        (left - 60) as u64
    } else {
        left / 2
    }
}

/// The seconds to wait, at that time in seconds, before a new token is asked
/// for: the period, unless a token that still stands would end by then. A token
/// that is over already leaves the period.
pub open spec fn refresh_wait(period: u64, expires_at: u64, now: u64) -> u64 {
    if now < expires_at <= now + period {
        shortened_wait((expires_at - now) as u64)
    } else {
        period
    }
}

/// The seconds to wait, at that time in seconds, before a new token is asked
/// for.
pub fn refresh_pause(period: u64, expires_at: u64, now: u64) -> (seconds: u64)
    ensures
        seconds == refresh_wait(period, expires_at, now),
        now < expires_at ==> now + seconds < expires_at,
{
    if now < expires_at {
        let left: u64 = expires_at - now;
        if left <= period {
            return if left > 60 {
                left - 60
            } else {
                left / 2
            };
        }
    }
    period
}

/// The account with its new token, whatever it was before.
pub open spec fn refreshed_with(token: String, expires_at: u64) -> spec_fn(
    CopilotAccount,
) -> CopilotAccount {
    |account: CopilotAccount| refreshed(account, token, expires_at)
}

/// Stores the new token of the account of that id, where it is stored.
pub fn store_refreshed(store: &mut AccountStore, id: &str, response: CopilotTokenResponse)
    ensures
        final(store).accounts() == update_first(
            old(store).accounts(),
            has_id(id@),
            refreshed_with(response.token, response.expires_at),
        ),
        final(store).turn() == old(store).turn(),
        final(store).keys() == old(store).keys(),
{
    proof {
        lemma_position(store.accounts(), has_id(id@));
    }
    match store.get_account(id) {
        Some(account) => {
            let mut updated: CopilotAccount = account;
            refresh(&mut updated, response.token, response.expires_at);
            store.update_account(updated);
        },
        None => {},
    }
}

/// What follows the answer to a request for a token.
#[derive(Debug, Clone, Copy, PartialEq, Eq, Structural)]
pub enum RefreshStep {
    /// Ask again after so many seconds, with this period.
    After { seconds: u64, period: u64 },
    /// Ask no more.
    Stop,
}

/// What follows the answer to a request for the token of an account: a token is
/// stored and sets when the next is asked for; a failure counts where there was a
/// token before.
pub open spec fn refresh_outcome(
    before: AccountStore,
    after: AccountStore,
    id: Seq<char>,
    period: Option<u64>,
    response: Option<CopilotTokenResponse>,
    now: u64,
    step: RefreshStep,
) -> bool {
    match (response, period) {
        (Some(given), _) => {
            let kept = kept_period(period, given.refresh_in);
            &&& after.accounts() == update_first(
                before.accounts(),
                has_id(id),
                refreshed_with(given.token, given.expires_at),
            )
            &&& step == RefreshStep::After {
                seconds: refresh_wait(kept, given.expires_at, now),
                period: kept,
            }
        },
        (None, Some(seconds)) => {
            &&& after.accounts() == update_first(before.accounts(), has_id(id), failed())
            &&& step == RefreshStep::After { seconds, period: seconds }
        },
        (None, None) => after.accounts() == before.accounts() && step == RefreshStep::Stop,
    }
}

/// What follows the answer to a request for the token of an account, at that
/// time in seconds. The first token sets the period, and each is asked for again
/// before it ends. Without a first token, while there is no period, it all
/// stops; a later failure counts as an error of the account, and the token is
/// asked for again after the period.
pub fn refresh_step(
    store: &mut AccountStore,
    id: &str,
    period: Option<u64>,
    response: Option<CopilotTokenResponse>,
    now: u64,
) -> (step: RefreshStep)
    ensures
        refresh_outcome(*old(store), *final(store), id@, period, response, now, step),
        match response {
            Some(given) => final(store).accounts() == update_first(
                old(store).accounts(),
                has_id(id@),
                refreshed_with(given.token, given.expires_at),
            ),
            None => final(store).accounts() == if period is Some {
                update_first(old(store).accounts(), has_id(id@), failed())
            } else {
                old(store).accounts()
            },
        },
        match (response, period) {
            (Some(given), _) => {
                let kept = kept_period(period, given.refresh_in);
                let seconds = refresh_wait(kept, given.expires_at, now);
                &&& step == RefreshStep::After { seconds, period: kept }
                &&& now < given.expires_at ==> now + seconds < given.expires_at
            },
            (None, Some(seconds)) => step == RefreshStep::After { seconds, period: seconds },
            (None, None) => step == RefreshStep::Stop,
        },
        final(store).turn() == old(store).turn(),
        final(store).keys() == old(store).keys(),
{
    match response {
        Some(given) => {
            let kept: u64 = match period {
                Some(seconds) => seconds,
                None => refresh_seconds(given.refresh_in),
            };
            let seconds: u64 = refresh_pause(kept, given.expires_at, now);
            store_refreshed(store, id, given);
            RefreshStep::After { seconds, period: kept }
        },
        None => match period {
            Some(seconds) => {
                store.mark_account_error(id);
                RefreshStep::After { seconds, period: seconds }
            },
            None => RefreshStep::Stop,
        },
    }
}

// ---------------------------------------------------------------------------
// Models and health
// ---------------------------------------------------------------------------

/// The request for the models, by the first active account; none where no
/// account is active.
pub fn models_request(state: &AppState) -> (request: Option<ServiceRequest>)
    ensures
        match request {
            Some(made) => state.store.active().len() > 0 && exists|request_id: Seq<char>| #[trigger]
                is_uuid(request_id) && made.is(
                    Method::Get,
                    base_url(state.store.active()[0].account_type@) + "/models"@,
                    copilot_header_views(
                        state.store.active()[0].copilot_token->0@,
                        state.vscode_version@,
                        false,
                        request_id,
                    ),
                    None,
                ),
            None => state.store.active().len() == 0,
        },
{
    let accounts: Vec<CopilotAccount> = state.store.get_active_accounts();
    if accounts.len() > 0 {
        proof {
            state.store.accounts().lemma_filter_pred(ready(), 0);
        }
        match &accounts[0].copilot_token {
            Some(token) => Some(
                get_models(
                    token.as_str(),
                    accounts[0].account_type.as_str(),
                    state.vscode_version.as_str(),
                ),
            ),
            None => None,
        }
    } else {
        None
    }
}

/// What callers are told of the server's health.
pub open spec fn health_tree(store: AccountStore, version: Seq<char>) -> Tree {
    Tree::Object(
        map![
            "status"@ => Tree::Text("ok"@),
            "version"@ => Tree::Text(version),
            "accounts"@ => Tree::Object(
                map![
                    "active"@ => Tree::Int(store.active().len() as int),
                    "total"@ => Tree::Int(store.accounts().len() as int),
                ],
            ),
            "api_keys_required"@ => Tree::Bool(store.keys().len() > 0),
        ],
    )
}

/// What callers are told of the server's health.
pub fn handle_health(store: &AccountStore, version: &str) -> (answer: Json)
    ensures
        answer@ == health_tree(*store, version@),
{
    let active: usize = store.get_active_accounts().len();
    let total: usize = store.data.accounts.len();
    let mut accounts: Object = Object::new();
    accounts.insert("active", Json::unsigned(active as u64));
    accounts.insert("total", Json::unsigned(total as u64));
    let mut members: Object = Object::new();
    members.insert("status", Json::text("ok"));
    members.insert("version", Json::text(version));
    members.insert("accounts", Json::Object(accounts));
    members.insert("api_keys_required", Json::Bool(store.has_api_keys()));
    Json::Object(members)
}

// ---------------------------------------------------------------------------
// Laws
// ---------------------------------------------------------------------------

/// A token that stands is asked for anew before it ends.
pub proof fn law_refresh_comes_in_time(period: u64, expires_at: u64, now: u64)
    requires
        now < expires_at,
    ensures
        now + refresh_wait(period, expires_at, now) < expires_at,
{
}

/// The period is kept wherever the token outlasts it, and is never exceeded.
pub proof fn law_refresh_keeps_its_period(period: u64, expires_at: u64, now: u64)
    ensures
        refresh_wait(period, expires_at, now) <= period,
        now + period < expires_at ==> refresh_wait(period, expires_at, now) == period,
{
}

/// A token is asked for anew a minute before the service says that it is time,
/// where that is five minutes or more away and the token stands so long.
pub proof fn law_refresh_comes_when_asked(refresh_in: u64, expires_at: u64, now: u64)
    requires
        refresh_in >= 300,
        now + refresh_in - 60 < expires_at,
    ensures
        refresh_wait(refresh_period(refresh_in), expires_at, now) == refresh_in - 60,
{
}

/// Tokens that stand for five minutes or more, and those that are over, are not
/// asked for more often than every four minutes.
pub proof fn law_refresh_is_rare(refresh_in: u64, expires_at: u64, now: u64)
    requires
        expires_at <= now || expires_at - now >= 300,
    ensures
        refresh_wait(refresh_period(refresh_in), expires_at, now) >= 240,
{
}

/// An account that got a token takes part in the rotation, whatever errors it
/// had; a refreshed one has none.
pub proof fn law_refreshed_account_is_ready(
    account: CopilotAccount,
    token: String,
    expires_at: u64,
)
    ensures
        ready()(activated(account, token, expires_at)),
        ready()(refreshed(account, token, expires_at)),
        refreshed(account, token, expires_at).error_count == 0,
{
}

/// A refresh of one account leaves all others as they are.
pub proof fn law_refresh_keeps_the_others(
    accounts: Seq<CopilotAccount>,
    id: Seq<char>,
    token: String,
    expires_at: u64,
    other: Seq<char>,
)
    requires
        other != id,
    ensures
        first(
            update_first(accounts, has_id(id), refreshed_with(token, expires_at)),
            has_id(other),
        ) == first(accounts, has_id(other)),
        first(update_first(accounts, has_id(id), failed()), has_id(other)) == first(
            accounts,
            has_id(other),
        ),
{
    crate::seqs::lemma_first_beside(
        accounts,
        has_id(id),
        refreshed_with(token, expires_at),
        has_id(other),
    );
    crate::seqs::lemma_first_beside(accounts, has_id(id), failed(), has_id(other));
}

/// The names in what is told of the server's health are distinct.
proof fn lemma_health_names()
    ensures
        "status"@.len() == 6,
        "version"@.len() == 7,
        "accounts"@.len() == 8,
        "active"@.len() == 6,
        "total"@.len() == 5,
        "api_keys_required"@.len() == 17,
        "status"@ != "active"@,
{
    reveal_strlit("status");
    reveal_strlit("version");
    reveal_strlit("accounts");
    reveal_strlit("active");
    reveal_strlit("total");
    reveal_strlit("api_keys_required");
    assert("status"@.len() == 6);
    assert("version"@.len() == 7);
    assert("accounts"@.len() == 8);
    assert("active"@.len() == 6);
    assert("total"@.len() == 5);
    assert("api_keys_required"@.len() == 17);
    assert("status"@[0] != "active"@[0]);
}

/// The server is told to be well, with its version, how many accounts take part
/// and how many there are, and whether callers need a key.
pub proof fn law_health(store: AccountStore, version: Seq<char>)
    ensures
        health_tree(store, version).at("status"@) == Tree::Text("ok"@),
        health_tree(store, version).at("version"@) == Tree::Text(version),
        health_tree(store, version).at("accounts"@).at("active"@) == Tree::Int(
            store.active().len() as int,
        ),
        health_tree(store, version).at("accounts"@).at("total"@) == Tree::Int(
            store.data.accounts@.len() as int,
        ),
        health_tree(store, version).at("api_keys_required"@) == Tree::Bool(
            store.data.api_keys@.len() > 0,
        ),
{
    lemma_health_names();
}

/// The tokens of all active and inactive accounts are kept fresh, in stored
/// order, and of no others.
pub proof fn law_active_and_inactive_are_kept_fresh(
    accounts: Seq<CopilotAccount>,
    account: CopilotAccount,
)
    ensures
        accounts.push(account).filter(is_refreshed()) == if account.status == AccountStatus::Active
            || account.status == AccountStatus::Inactive {
            accounts.filter(is_refreshed()).push(account)
        } else {
            accounts.filter(is_refreshed())
        },
{
    crate::seqs::lemma_filter_pushed(accounts, account, is_refreshed());
}

/// A token given on the command line always makes an account; one saved earlier
/// does where it is not blank and no account is stored; else none is made.
pub proof fn law_start_account(
    given: Option<Seq<char>>,
    saved: Option<Seq<char>>,
    accounts: Seq<CopilotAccount>,
)
    ensures
        given is Some ==> start_account(given, saved, accounts) == Some(("CLI Account"@, given->0)),
        given is None && saved is None ==> start_account(given, saved, accounts) is None,
        given is None && saved is Some ==> (start_account(given, saved, accounts) is Some <==>
            accounts.len() == 0 && trim(saved->0).len() > 0),
        given is None && start_account(given, saved, accounts) is Some ==> start_account(
            given,
            saved,
            accounts,
        ) == Some(("Default"@, trim(saved->0))),
{
}

/// The period between requests for a token is a minute less than the service asks
/// for, where that is five minutes or more, and four minutes else; the first token
/// sets it for good.
pub proof fn law_period_is_set_once(refresh_in: u64, later: u64)
    ensures
        refresh_in >= 300 ==> refresh_period(refresh_in) == refresh_in - 60,
        refresh_in < 300 ==> refresh_period(refresh_in) == 240,
        kept_period(None, refresh_in) == refresh_period(refresh_in),
        kept_period(Some(refresh_period(refresh_in)), later) == refresh_period(refresh_in),
{
}

/// A token that would end within the period is asked for a minute before its end,
/// or at half of what is left of a minute or less.
pub proof fn law_short_tokens_are_asked_for_sooner(period: u64, expires_at: u64, now: u64)
    requires
        now < expires_at <= now + period,
    ensures
        expires_at - now > 60 ==> refresh_wait(period, expires_at, now) == expires_at - now - 60,
        expires_at - now <= 60 ==> refresh_wait(period, expires_at, now) == (expires_at - now) / 2,
{
}

/// A token that is over leaves the period as it is.
pub proof fn law_ended_tokens_keep_the_period(period: u64, expires_at: u64, now: u64)
    requires
        expires_at <= now,
    ensures
        refresh_wait(period, expires_at, now) == period,
{
}

/// A text that may be given is seen as it is.
pub proof fn law_given_texts_are_seen(text: Option<String>)
    ensures
        given_text(&text) == if text is Some {
            Some(text->0@)
        } else {
            None
        },
{
}

/// A token that comes goes to the first account of that id and to no other, which
/// is then active and without errors, and is asked for again before it ends, after
/// the period of the first token at the latest. Without a token an account with a
/// period has one error more and is asked for again after its period; without a
/// period all is over.
pub proof fn law_refresh_goes_on(
    before: AccountStore,
    after: AccountStore,
    id: Seq<char>,
    period: Option<u64>,
    response: Option<CopilotTokenResponse>,
    now: u64,
    step: RefreshStep,
    i: int,
)
    requires
        refresh_outcome(before, after, id, period, response, now, step),
        0 <= i < before.accounts().len(),
    ensures
        after.accounts().len() == before.accounts().len(),
        !is_first_of(before.accounts(), i, id) ==> after.accounts()[i] == before.accounts()[i],
        response matches Some(given) ==> {
            &&& is_first_of(before.accounts(), i, id) ==> {
                &&& after.accounts()[i].copilot_token == Some(given.token)
                &&& after.accounts()[i].status == AccountStatus::Active
                &&& after.accounts()[i].error_count == 0
                &&& after.accounts()[i].id == before.accounts()[i].id
                &&& after.accounts()[i].github_token == before.accounts()[i].github_token
                &&& after.accounts()[i].last_used == before.accounts()[i].last_used
            }
            &&& step matches RefreshStep::After { seconds, period: kept } && {
                &&& kept == if period is Some {
                    period->0 as int
                } else if given.refresh_in > 300 {
                    given.refresh_in - 60
                } else {
                    240
                }
                &&& seconds <= kept
                &&& now < given.expires_at ==> now + seconds < given.expires_at
                &&& now + kept < given.expires_at || given.expires_at <= now ==> seconds == kept
            }
        },
        response is None && period is Some ==> step == (RefreshStep::After {
            seconds: period->0,
            period: period->0,
        }),
        response is None && period is Some && is_first_of(before.accounts(), i, id) && before.accounts()[i].error_count
            < u32::MAX ==> after.accounts()[i].error_count == before.accounts()[i].error_count + 1
            && (after.accounts()[i].status == AccountStatus::Error || after.accounts()[i].status
            == before.accounts()[i].status),
        response is None && period is None ==> step == RefreshStep::Stop && after.accounts()
            == before.accounts(),
{
    let accounts = before.accounts();
    let change = match response {
        Some(given) => refreshed_with(given.token, given.expires_at),
        None => failed(),
    };
    crate::seqs::lemma_update_first_at(accounts, has_id(id), change, i);
    let picked = has_id(id)(accounts[i]) && (forall|j: int|
        0 <= j < i ==> !has_id(id)(#[trigger] accounts[j]));
    if is_first_of(accounts, i, id) {
        assert forall|j: int| 0 <= j < i implies !has_id(id)(#[trigger] accounts[j]) by {}
        assert(picked);
    }
    if picked {
        assert forall|j: int| 0 <= j < i implies (#[trigger] accounts[j]).id@ != id by {
            assert(!has_id(id)(accounts[j]));
        }
        assert(is_first_of(accounts, i, id));
    }
}

} // verus!
