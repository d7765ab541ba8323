//! The administration of accounts and keys.

use vstd::prelude::*;
use vstd::string::*;

use crate::account_store::{
    activate, activated, becomes, has_id, has_other_id, has_other_key, is_first_of, is_new_account,
    is_new_key, refresh, refreshed, AccountStatus, AccountStore, ApiKeyEntry, CopilotAccount,
};
use crate::clock::{is_reading, millis_between, millis_passed, now_ms, wrap_u64};
use crate::ids::is_uuid;
use crate::json::{lemma_trees, trees, Json, Object, Tree};
use crate::routes::proxy::{has_short_form, short_form, short_id};
use crate::routes::ApiError;
use crate::seqs::{first, lemma_filter_take, update_first};
use crate::services::copilot::{get_copilot_token, CopilotTokenResponse};
use crate::services::github::{DeviceCodeResponse, GitHubUser};
use crate::services::{Method, ServiceRequest};
use crate::state::github_header_views;
use crate::text::same_text;

verus! {

// ---------------------------------------------------------------------------
// Sessions of the device flow
// ---------------------------------------------------------------------------

/// A session of the device flow: when it began, and for which type of account.
pub struct Session {
    pub ts: u64,
    pub account_type: Seq<char>,
}

/// A session of the device flow, under its code.
#[derive(Debug)]
struct OAuthSession {
    device_code: String,
    ts: u64,
    account_type: String,
}

impl View for OAuthSession {
    type V = Session;

    closed spec fn view(&self) -> Session {
        Session { ts: self.ts, account_type: self.account_type@ }
    }
}

/// Pending sessions, by device code.
#[derive(Debug)]
pub struct OAuthStore {
    sessions: Vec<OAuthSession>,
}

/// No code stands twice.
spec fn distinct_codes(sessions: Seq<OAuthSession>) -> bool {
    forall|i: int, j: int|
        0 <= i < j < sessions.len() ==> #[trigger] sessions[i].device_code@
            != #[trigger] sessions[j].device_code@
}

/// The session at that place has that code.
spec fn is_at(sessions: Seq<OAuthSession>, code: Seq<char>, i: int) -> bool {
    0 <= i < sessions.len() && sessions[i].device_code@ == code
}

spec fn has_code(sessions: Seq<OAuthSession>) -> spec_fn(Seq<char>) -> bool {
    |code: Seq<char>| exists|i: int| is_at(sessions, code, i)
}

spec fn of_code(sessions: Seq<OAuthSession>) -> spec_fn(Seq<char>) -> Session {
    |code: Seq<char>| sessions[choose|i: int| is_at(sessions, code, i)]@
}

spec fn session_map(sessions: Seq<OAuthSession>) -> Map<Seq<char>, Session> {
    Map::new(has_code(sessions), of_code(sessions))
}

/// What stands at a place is what the map holds under its code.
proof fn lemma_session_at(sessions: Seq<OAuthSession>, i: int)
    requires
        distinct_codes(sessions),
        0 <= i < sessions.len(),
    ensures
        session_map(sessions).contains_key(sessions[i].device_code@),
        session_map(sessions)[sessions[i].device_code@] == sessions[i]@,
{
    let code = sessions[i].device_code@;
    assert(is_at(sessions, code, i));
    let k = choose|k: int| is_at(sessions, code, k);
    assert(k == i);
}

/// Two maps that hold the same are one.
proof fn lemma_same_map(a: Map<Seq<char>, Session>, b: Map<Seq<char>, Session>)
    requires
        forall|code: Seq<char>| #[trigger]
            a.contains_key(code) ==> b.contains_key(code) && a[code] == b[code],
        forall|code: Seq<char>| #[trigger] b.contains_key(code) ==> a.contains_key(code),
    ensures
        a == b,
{
    assert(a =~= b);
}

/// How long a session stands: fifteen minutes, in milliseconds.
pub const SESSION_MILLIS: u64 = 900_000;

/// The seconds from one dropping of sessions that are over to the next.
pub const PURGE_SECONDS: u64 = 300;

/// The interval, in seconds, at which a token is polled for where an account is
/// added by a device code.
pub const POLL_SECONDS: u64 = 5;

/// The session is not over at that time.
pub open spec fn is_fresh(session: Session, now: u64) -> bool {
    millis_between(session.ts, now) < SESSION_MILLIS
}

/// The sessions that are not over at that time.
pub open spec fn fresh_sessions(sessions: Map<Seq<char>, Session>, now: u64) -> Map<
    Seq<char>,
    Session,
> {
    Map::new(
        |code: Seq<char>| sessions.contains_key(code) && is_fresh(sessions[code], now),
        |code: Seq<char>| sessions[code],
    )
}

impl View for OAuthStore {
    type V = Map<Seq<char>, Session>;

    closed spec fn view(&self) -> Map<Seq<char>, Session> {
        session_map(self.sessions@)
    }
}

impl OAuthStore {
    #[verifier::type_invariant]
    spec fn codes_are_distinct(self) -> bool {
        distinct_codes(self.sessions@)
    }

    /// A store without sessions.
    pub fn new() -> (store: OAuthStore)
        ensures
            store@ == Map::<Seq<char>, Session>::empty(),
    {
        let store: OAuthStore = OAuthStore { sessions: Vec::new() };
        proof {
            assert(session_map(store.sessions@) =~= Map::<Seq<char>, Session>::empty());
        }
        store
    }

    /// Stores a session under its code, in place of an earlier one.
    pub fn insert(&mut self, device_code: &str, account_type: String, now: u64)
        ensures
            final(self)@ == old(self)@.insert(
                device_code@,
                (Session { ts: now, account_type: account_type@ }),
            ),
    {
        self.remove(device_code);
        proof {
            use_type_invariant(&*self);
        }
        let ghost before = self.sessions@;
        let ghost cleared = self@;
        let mut sessions: Vec<OAuthSession> = Vec::new();
        std::mem::swap(&mut sessions, &mut self.sessions);
        let session: OAuthSession = OAuthSession {
            device_code: device_code.to_owned(),
            ts: now,
            account_type,
        };
        sessions.push(session);
        proof {
            let after = sessions@;
            assert forall|i: int, j: int| 0 <= i < j < after.len() implies #[trigger] after[i].device_code@
                != #[trigger] after[j].device_code@ by {
                if j == before.len() {
                    lemma_session_at(before, i);
                    assert(cleared.contains_key(before[i].device_code@));
                } else {
                    assert(before[i].device_code@ != before[j].device_code@);
                }
            }
            let wanted = cleared.insert(
                device_code@,
                Session { ts: now, account_type: account_type@ },
            );
            lemma_session_at(after, before.len() as int);
            assert forall|code: Seq<char>| #[trigger]
                session_map(after).contains_key(code) implies wanted.contains_key(code)
                && session_map(after)[code] == wanted[code] by {
                let i = choose|i: int| is_at(after, code, i);
                lemma_session_at(after, i);
                if i < before.len() {
                    lemma_session_at(before, i);
                }
            }
            assert forall|code: Seq<char>| #[trigger] wanted.contains_key(code) implies session_map(
                after,
            ).contains_key(code) by {
                if code != device_code@ {
                    let i = choose|i: int| is_at(before, code, i);
                    assert(after[i] == before[i]);
                    lemma_session_at(after, i);
                }
            }
            lemma_same_map(session_map(after), wanted);
        }
        self.sessions = sessions;
        proof {
            assert(self@ =~= old(self)@.insert(
                device_code@,
                Session { ts: now, account_type: account_type@ },
            ));
        }
    }

    /// Takes the session of that code out; tells whether there was one.
    pub fn remove(&mut self, device_code: &str) -> (found: bool)
        ensures
            found == old(self)@.contains_key(device_code@),
            final(self)@ == old(self)@.remove(device_code@),
    {
        proof {
            use_type_invariant(&*self);
        }
        let ghost before = self.sessions@;
        let mut sessions: Vec<OAuthSession> = Vec::new();
        std::mem::swap(&mut sessions, &mut self.sessions);
        let count: usize = sessions.len();
        let mut i: usize = 0;
        while i < count
            invariant
                i <= count,
                count == sessions.len(),
                sessions@ == before,
                distinct_codes(before),
                old(self)@ == session_map(before),
                forall|j: int| 0 <= j < i ==> #[trigger] before[j].device_code@ != device_code@,
            decreases count - i,
        {
            if same_text(sessions[i].device_code.as_str(), device_code) {
                sessions.remove(i);
                proof {
                    lemma_session_at(before, i as int);
                    lemma_removed_session(before, i as int);
                    assert(sessions@ =~= before.remove(i as int));
                }
                self.sessions = sessions;
                return true;
            }
            i = i + 1;
        }
        proof {
            assert(!session_map(before).contains_key(device_code@));
            assert(session_map(before).remove(device_code@) =~= session_map(before));
        }
        self.sessions = sessions;
        false
    }

    /// Drops the sessions that are over at that time.
    pub fn purge_at(&mut self, now: u64)
        ensures
            final(self)@ == fresh_sessions(old(self)@, now),
    {
        proof {
            use_type_invariant(&*self);
        }
        let ghost before = self.sessions@;
        let mut sessions: Vec<OAuthSession> = Vec::new();
        std::mem::swap(&mut sessions, &mut self.sessions);
        let mut kept: Vec<OAuthSession> = Vec::new();
        let ghost mut sources: Seq<int> = seq![];
        for session in iter: sessions
            invariant
                iter.seq() == before,
                distinct_codes(before),
                kept@.len() == sources.len(),
                forall|k: int|
                    0 <= k < sources.len() ==> 0 <= #[trigger] sources[k] < iter.index() && kept@[k]
                        == before[sources[k]] && is_fresh(kept@[k]@, now),
                forall|a: int, b: int|
                    0 <= a < b < sources.len() ==> #[trigger] sources[a] < #[trigger] sources[b],
                forall|j: int|
                    0 <= j < iter.index() && is_fresh((#[trigger] before[j])@, now)
                        ==> sources.contains(j),
        {
            let ghost i = iter.index() as int;
            let ghost earlier = sources;
            proof {
                assert(session == before[i]);
            }
            if millis_passed(session.ts, now) < SESSION_MILLIS {
                kept.push(session);
                proof {
                    sources = sources.push(i);
                    assert(sources[earlier.len() as int] == i);
                    assert forall|j: int| 0 <= j < i + 1 && is_fresh(
                        (#[trigger] before[j])@,
                        now,
                    ) implies sources.contains(j) by {
                        if j < i {
                            let k = choose|k: int| 0 <= k < earlier.len() && earlier[k] == j;
                            assert(sources[k] == j);
                        }
                    }
                }
            }
        }
        proof {
            let after = kept@;
            assert forall|a: int, b: int| 0 <= a < b < after.len() implies #[trigger] after[a].device_code@
                != #[trigger] after[b].device_code@ by {
                let x = sources[a];
                let y = sources[b];
                assert(before[x].device_code@ != before[y].device_code@);
            }
            let wanted = fresh_sessions(session_map(before), now);
            assert forall|code: Seq<char>| #[trigger]
                session_map(after).contains_key(code) implies wanted.contains_key(code)
                && session_map(after)[code] == wanted[code] by {
                let k = choose|k: int| is_at(after, code, k);
                lemma_session_at(after, k);
                lemma_session_at(before, sources[k]);
            }
            assert forall|code: Seq<char>| #[trigger] wanted.contains_key(code) implies session_map(
                after,
            ).contains_key(code) by {
                let i = choose|i: int| is_at(before, code, i);
                lemma_session_at(before, i);
                assert(is_fresh(before[i]@, now));
                let k = choose|k: int| 0 <= k < sources.len() && sources[k] == i;
                lemma_session_at(after, k);
            }
            lemma_same_map(session_map(after), wanted);
        }
        self.sessions = kept;
    }

    /// Drops the sessions that are over now.
    pub fn purge(&mut self)
        ensures
            exists|now: u64| #[trigger]
                is_reading(now) && final(self)@ == fresh_sessions(old(self)@, now),
    {
        let now: u64 = now_ms();
        self.purge_at(now);
    }
}

/// Without the session at a place, the map is without its code.
proof fn lemma_removed_session(sessions: Seq<OAuthSession>, i: int)
    requires
        distinct_codes(sessions),
        0 <= i < sessions.len(),
    ensures
        distinct_codes(sessions.remove(i)),
        session_map(sessions.remove(i)) == session_map(sessions).remove(sessions[i].device_code@),
{
    let after = sessions.remove(i);
    assert forall|a: int, b: int| 0 <= a < b < after.len() implies #[trigger] after[a].device_code@
        != #[trigger] after[b].device_code@ by {
        let x = if a < i {
            a
        } else {
            a + 1
        };
        let y = if b < i {
            b
        } else {
            b + 1
        };
        assert(after[a] == sessions[x] && after[b] == sessions[y]);
        assert(sessions[x].device_code@ != sessions[y].device_code@);
    }
    let wanted = session_map(sessions).remove(sessions[i].device_code@);
    assert forall|code: Seq<char>| #[trigger] session_map(after).contains_key(code) implies wanted.contains_key(
        code,
    ) && session_map(after)[code] == wanted[code] by {
        let a = choose|a: int| is_at(after, code, a);
        let x = if a < i {
            a
        } else {
            a + 1
        };
        assert(after[a] == sessions[x]);
        lemma_session_at(after, a);
        lemma_session_at(sessions, x);
        assert(sessions[x].device_code@ != sessions[i].device_code@);
    }
    assert forall|code: Seq<char>| #[trigger] wanted.contains_key(code) implies session_map(
        after,
    ).contains_key(code) by {
        let x = choose|x: int| is_at(sessions, code, x);
        let a = if x < i {
            x
        } else {
            x - 1
        };
        assert(x != i);
        assert(after[a] == sessions[x]);
        lemma_session_at(after, a);
    }
    lemma_same_map(session_map(after), wanted);
}

// ---------------------------------------------------------------------------
// Starting the device flow
// ---------------------------------------------------------------------------

/// What starts the device flow.
#[derive(Debug)]
pub struct DeviceCodeRequest {
    pub account_type: Option<String>,
}

/// The text, or a default.
pub open spec fn or_default(text: Option<String>, default: Seq<char>) -> Seq<char> {
    match text {
        Some(t) => t@,
        None => default,
    }
}

fn or_text(text: &Option<String>, default: &str) -> (chosen: String)
    ensures
        chosen@ == or_default(*text, default@),
{
    match text {
        Some(t) => t.clone(),
        None => default.to_owned(),
    }
}

/// The session that a started device flow has.
pub open spec fn started_session(body: DeviceCodeRequest, now: u64) -> Session {
    Session { ts: now, account_type: or_default(body.account_type, "individual"@) }
}

/// What the caller is told of a started device flow.
pub open spec fn device_code_tree(response: DeviceCodeResponse) -> Tree {
    Tree::Object(
        map![
            "device_code"@ => Tree::Text(response.device_code@),
            "user_code"@ => Tree::Text(response.user_code@),
            "verification_uri"@ => Tree::Text(response.verification_uri@),
            "expires_in"@ => Tree::Int(response.expires_in as int),
            "interval"@ => Tree::Int(response.interval as int),
        ],
    )
}

/// What starting the device flow comes to: its session is stored and the caller
/// told of it; where the service failed, the caller is told why.
pub open spec fn device_code_outcome(
    before: Map<Seq<char>, Session>,
    after: Map<Seq<char>, Session>,
    body: DeviceCodeRequest,
    response: Result<DeviceCodeResponse, String>,
    now: u64,
    outcome: Result<Json, ApiError>,
) -> bool {
    match response {
        Ok(given) => {
            &&& after == before.insert(given.device_code@, started_session(body, now))
            &&& outcome matches Ok(answer) && answer@ == device_code_tree(given)
        },
        Err(message) => {
            &&& after == before
            &&& outcome matches Err(error) && error.is(502, message@)
        },
    }
}

/// Takes in the service's answer to the start of the device flow, at that
/// time.
pub fn start_device_code_at(
    oauth_store: &mut OAuthStore,
    body: &DeviceCodeRequest,
    response: &Result<DeviceCodeResponse, String>,
    now: u64,
) -> (outcome: Result<Json, ApiError>)
    ensures
        device_code_outcome(
            old(oauth_store)@,
            final(oauth_store)@,
            *body,
            *response,
            now,
            outcome,
        ),
{
    match response {
        Ok(given) => {
            let account_type: String = or_text(&body.account_type, "individual");
            oauth_store.insert(given.device_code.as_str(), account_type, now);
            let mut members: Object = Object::new();
            members.insert("device_code", Json::text(given.device_code.as_str()));
            members.insert("user_code", Json::text(given.user_code.as_str()));
            members.insert("verification_uri", Json::text(given.verification_uri.as_str()));
            members.insert("expires_in", Json::unsigned(given.expires_in));
            members.insert("interval", Json::unsigned(given.interval));
            Ok(Json::Object(members))
        },
        Err(message) => Err(ApiError::new(502, message.as_str())),
    }
}

/// Takes in the service's answer to the start of the device flow, now.
pub fn start_device_code(
    oauth_store: &mut OAuthStore,
    body: &DeviceCodeRequest,
    response: &Result<DeviceCodeResponse, String>,
) -> (outcome: Result<Json, ApiError>)
    ensures
        exists|now: u64| #[trigger]
            is_reading(now) && device_code_outcome(
                old(oauth_store)@,
                final(oauth_store)@,
                *body,
                *response,
                now,
                outcome,
            ),
{
    let now: u64 = now_ms();
    start_device_code_at(oauth_store, body, response, now)
}

// ---------------------------------------------------------------------------
// Adding an account
// ---------------------------------------------------------------------------

/// What adds an account.
#[derive(Debug)]
pub struct AddAccountRequest {
    pub label: Option<String>,
    pub account_type: Option<String>,
    pub github_token: Option<String>,
    pub device_code: Option<String>,
}

/// Where the token of an account comes from.
#[derive(Debug)]
pub enum TokenSource {
    /// It was given.
    Given(String),
    /// It is polled for, under this device code.
    Polled(String),
}

/// Where the token of a new account comes from, and which sessions are left.
pub open spec fn source_outcome(
    before: Map<Seq<char>, Session>,
    after: Map<Seq<char>, Session>,
    body: AddAccountRequest,
    source: Result<TokenSource, ApiError>,
) -> bool {
    match (body.github_token, body.device_code) {
        (Some(token), _) => {
            &&& source == Ok::<TokenSource, ApiError>(TokenSource::Given(token))
            &&& after == before
        },
        (None, Some(code)) => {
            &&& after == before.remove(code@)
            &&& if before.contains_key(code@) {
                source == Ok::<TokenSource, ApiError>(TokenSource::Polled(code))
            } else {
                source matches Err(error) && error.is(400, "Device code expired or not found"@)
            }
        },
        (None, None) => {
            &&& source matches Err(error) && error.is(400, "Provide githubToken or deviceCode"@)
            &&& after == before
        },
    }
}

/// Where the token of a new account comes from: the request gives it, or names
/// a pending session, which is used up.
pub fn token_source(oauth_store: &mut OAuthStore, body: &AddAccountRequest) -> (source: Result<
    TokenSource,
    ApiError,
>)
    ensures
        source_outcome(old(oauth_store)@, final(oauth_store)@, *body, source),
        match (body.github_token, body.device_code) {
            (Some(token), _) => {
                &&& source == Ok::<TokenSource, ApiError>(TokenSource::Given(token))
                &&& final(oauth_store)@ == old(oauth_store)@
            },
            (None, Some(code)) => {
                &&& final(oauth_store)@ == old(oauth_store)@.remove(code@)
                &&& if old(oauth_store)@.contains_key(code@) {
                    source == Ok::<TokenSource, ApiError>(TokenSource::Polled(code))
                } else {
                    source matches Err(error) && error.is(400, "Device code expired or not found"@)
                }
            },
            (None, None) => {
                &&& source matches Err(error) && error.is(
                    400,
                    "Provide githubToken or deviceCode"@,
                )
                &&& final(oauth_store)@ == old(oauth_store)@
            },
        },
{
    match &body.github_token {
        Some(token) => Ok(TokenSource::Given(token.clone())),
        None => match &body.device_code {
            Some(code) => {
                if oauth_store.remove(code.as_str()) {
                    Ok(TokenSource::Polled(code.clone()))
                } else {
                    Err(ApiError::bad_request("Device code expired or not found"))
                }
            },
            None => Err(ApiError::bad_request("Provide githubToken or deviceCode")),
        },
    }
}

/// The token that was polled for; a failure is answered as the caller's error.
pub fn polled_token(outcome: Result<String, String>) -> (token: Result<String, ApiError>)
    ensures
        match outcome {
            Ok(given) => token == Ok::<String, ApiError>(given),
            Err(message) => token matches Err(error) && error.is(400, message@),
        },
{
    match outcome {
        Ok(given) => Ok(given),
        Err(message) => Err(ApiError::bad_request(message.as_str())),
    }
}

/// The name of a user, where it is known.
pub open spec fn user_name(user: Option<GitHubUser>) -> Seq<char> {
    match user {
        Some(known) => known.login@,
        None => seq![],
    }
}

/// The label of a new account: the one asked for, behind the user's name where
/// it is known.
pub open spec fn account_label(username: Seq<char>, label: Option<String>) -> Seq<char> {
    if username.len() == 0 {
        or_default(label, "Account"@)
    } else {
        username + " ("@ + or_default(label, "Account"@) + ")"@
    }
}

fn make_label(user: &Option<GitHubUser>, label: &Option<String>) -> (made: String)
    ensures
        made@ == account_label(user_name(*user), *label),
{
    let plain: String = or_text(label, "Account");
    match user {
        Some(known) => {
            if known.login.as_str().is_empty() {
                plain
            } else {
                let mut made: String = known.login.clone();
                made.append(" (");
                made.append(plain.as_str());
                made.append(")");
                made
            }
        },
        None => plain,
    }
}

/// The account is a new one for that request, user and token.
pub open spec fn is_asked_account(
    account: CopilotAccount,
    body: AddAccountRequest,
    username: Seq<char>,
    github_token: Seq<char>,
) -> bool {
    &&& is_new_account(
        account,
        account.id@,
        account.label,
        account.github_token,
        account.account_type,
        account.created_at,
    )
    &&& account.label@ == account_label(username, body.label)
    &&& account.github_token@ == github_token
    &&& account.account_type@ == or_default(body.account_type, "individual"@)
}

/// Stores a new account for a request, under that id and as of that time.
pub fn add_account_with(
    store: &mut AccountStore,
    body: &AddAccountRequest,
    user: &Option<GitHubUser>,
    github_token: &str,
    id: String,
    now: u64,
) -> (account: CopilotAccount)
    ensures
        is_asked_account(account, *body, user_name(*user), github_token@),
        account.id@ == id@,
        account.created_at == now,
        final(store).accounts() == old(store).accounts().push(account),
        final(store).turn() == old(store).turn(),
        final(store).keys() == old(store).keys(),
{
    let label: String = make_label(user, &body.label);
    let account_type: String = or_text(&body.account_type, "individual");
    store.add_account_with(id, now, label, github_token.to_owned(), account_type)
}

/// Stores a new account for a request, under a random id and as of now.
pub fn add_account(
    store: &mut AccountStore,
    body: &AddAccountRequest,
    user: &Option<GitHubUser>,
    github_token: &str,
) -> (account: CopilotAccount)
    ensures
        is_uuid(account.id@),
        is_reading(account.created_at),
        is_asked_account(account, *body, user_name(*user), github_token@),
        final(store).accounts() == old(store).accounts().push(account),
        final(store).turn() == old(store).turn(),
        final(store).keys() == old(store).keys(),
{
    let label: String = make_label(user, &body.label);
    let account_type: String = or_text(&body.account_type, "individual");
    store.add_account(label, github_token.to_owned(), account_type)
}

/// What the caller is told of an account that has its token.
pub open spec fn added_tree(account: CopilotAccount) -> Tree {
    Tree::Object(
        map![
            "id"@ => Tree::Text(account.id@),
            "label"@ => Tree::Text(account.label@),
            "status"@ => Tree::Text(account.status.name()),
        ],
    )
}

/// What the caller is told of an account that did not get its token.
pub open spec fn warned_tree(account: CopilotAccount) -> Tree {
    Tree::Object(
        map![
            "id"@ => Tree::Text(account.id@),
            "label"@ => Tree::Text(account.label@),
            "status"@ => Tree::Text(account.status.name()),
            "warning"@ => Tree::Text(
                "GitHub token saved but Copilot token fetch failed. Try re-auth."@,
            ),
        ],
    )
}

/// What a new account comes to: with a token it is stored anew with that, and told
/// of; without one it stays as it is, and a warning is told.
pub open spec fn finished(
    before: AccountStore,
    after: AccountStore,
    account: CopilotAccount,
    response: Option<CopilotTokenResponse>,
    answer: Tree,
) -> bool {
    match response {
        Some(given) => {
            let updated = activated(account, given.token, given.expires_at);
            &&& after.accounts() == update_first(
                before.accounts(),
                has_id(account.id@),
                becomes(updated),
            )
            &&& answer == added_tree(updated)
        },
        None => after.accounts() == before.accounts() && answer == warned_tree(account),
    }
}

/// Gives a new account its token, where the service gave one, and tells the
/// caller of it.
pub fn finish_account(
    store: &mut AccountStore,
    account: CopilotAccount,
    response: Option<CopilotTokenResponse>,
) -> (answer: Json)
    ensures
        finished(*old(store), *final(store), account, response, answer@),
        match response {
            Some(given) => {
                let updated = activated(account, given.token, given.expires_at);
                &&& final(store).accounts() == update_first(
                    old(store).accounts(),
                    has_id(account.id@),
                    becomes(updated),
                )
                &&& answer@ == added_tree(updated)
            },
            None => {
                &&& final(store).accounts() == old(store).accounts()
                &&& answer@ == warned_tree(account)
            },
        },
        final(store).turn() == old(store).turn(),
        final(store).keys() == old(store).keys(),
{
    let mut members: Object = Object::new();
    match response {
        Some(given) => {
            let mut updated: CopilotAccount = account;
            activate(&mut updated, given.token, given.expires_at);
            members.insert("id", Json::text(updated.id.as_str()));
            members.insert("label", Json::text(updated.label.as_str()));
            members.insert("status", Json::Text(updated.status.to_string()));
            store.update_account(updated);
        },
        None => {
            members.insert("id", Json::text(account.id.as_str()));
            members.insert("label", Json::text(account.label.as_str()));
            members.insert("status", Json::Text(account.status.to_string()));
            members.insert(
                "warning",
                Json::text("GitHub token saved but Copilot token fetch failed. Try re-auth."),
            );
        },
    }
    Json::Object(members)
}

// ---------------------------------------------------------------------------
// Accounts
// ---------------------------------------------------------------------------

/// A time that may not have come yet.
pub open spec fn time_tree(time: Option<u64>) -> Tree {
    match time {
        Some(t) => Tree::Int(t as int),
        None => Tree::Null,
    }
}

fn time_json(time: Option<u64>) -> (json: Json)
    ensures
        json@ == time_tree(time),
{
    match time {
        Some(t) => Json::unsigned(t),
        None => Json::Null,
    }
}

/// An account as the administrator is told of it: without its tokens.
pub open spec fn account_tree() -> spec_fn(CopilotAccount) -> Tree {
    |account: CopilotAccount|
        Tree::Object(
            map![
                "id"@ => Tree::Text(account.id@),
                "label"@ => Tree::Text(account.label@),
                "accountType"@ => Tree::Text(account.account_type@),
                "status"@ => Tree::Text(account.status.name()),
                "lastUsed"@ => time_tree(account.last_used),
                "errorCount"@ => Tree::Int(account.error_count as int),
                "createdAt"@ => Tree::Int(account.created_at as int),
            ],
        )
}

fn describe_account(account: &CopilotAccount) -> (described: Json)
    ensures
        described@ == account_tree()(*account),
{
    let mut members: Object = Object::new();
    members.insert("id", Json::text(account.id.as_str()));
    members.insert("label", Json::text(account.label.as_str()));
    members.insert("accountType", Json::text(account.account_type.as_str()));
    members.insert("status", Json::Text(account.status.to_string()));
    members.insert("lastUsed", time_json(account.last_used));
    members.insert("errorCount", Json::unsigned(account.error_count as u64));
    members.insert("createdAt", Json::unsigned(account.created_at));
    Json::Object(members)
}

/// The accounts, without their tokens.
pub fn list_accounts(store: &AccountStore) -> (answer: Json)
    ensures
        answer@ == Tree::Array(store.accounts().map_values(account_tree())),
{
    let mut list: Vec<Json> = Vec::new();
    let count: usize = store.data.accounts.len();
    let mut i: usize = 0;
    while i < count
        invariant
            i <= count,
            count == store.accounts().len(),
            list.len() == i,
            forall|j: int|
                0 <= j < i ==> (#[trigger] list@[j])@ == account_tree()(store.accounts()[j]),
        decreases count - i,
    {
        list.push(describe_account(&store.data.accounts[i]));
        i = i + 1;
    }
    proof {
        lemma_trees(list@);
        assert(trees(list@) =~= store.accounts().map_values(account_tree()));
    }
    Json::Array(list)
}

/// What the administrator is told where something was done.
pub open spec fn success_tree() -> Tree {
    Tree::Object(map!["success"@ => Tree::Bool(true)])
}

fn success() -> (answer: Json)
    ensures
        answer@ == success_tree(),
{
    let mut members: Object = Object::new();
    members.insert("success", Json::Bool(true));
    Json::Object(members)
}

/// An account of that id is stored.
pub open spec fn knows_account(store: AccountStore, id: Seq<char>) -> bool {
    exists|i: int| 0 <= i < store.accounts().len() && #[trigger] store.accounts()[i].id@ == id
}

/// A key is stored.
pub open spec fn knows_key(store: AccountStore, key: Seq<char>) -> bool {
    exists|i: int| 0 <= i < store.keys().len() && #[trigger] store.keys()[i].key@ == key
}

/// Removes the account of that id.
pub fn remove_account(store: &mut AccountStore, id: &str) -> (outcome: Result<Json, ApiError>)
    ensures
        match outcome {
            Ok(answer) => knows_account(*old(store), id@) && answer@ == success_tree(),
            Err(error) => !knows_account(*old(store), id@) && error.is(404, "Account not found"@),
        },
        final(store).accounts() == old(store).accounts().filter(has_other_id(id@)),
        final(store).turn() == old(store).turn(),
        final(store).keys() == old(store).keys(),
{
    if store.remove_account(id) {
        Ok(success())
    } else {
        Err(ApiError::not_found("Account not found"))
    }
}

/// The account of that id, and the request for a new token for it.
pub fn reauth_account(store: &AccountStore, id: &str) -> (outcome: Result<
    (CopilotAccount, ServiceRequest),
    ApiError,
>)
    ensures
        match outcome {
            Ok((account, request)) => first(store.accounts(), has_id(id@)) == Some(account)
                && request.is(
                Method::Get,
                "https://api.github.com/copilot_internal/v2/token"@,
                github_header_views(account.github_token@),
                None,
            ),
            Err(error) => first(store.accounts(), has_id(id@)) is None && error.is(
                404,
                "Account not found"@,
            ),
        },
{
    match store.get_account(id) {
        Some(account) => {
            let request: ServiceRequest = get_copilot_token(account.github_token.as_str());
            Ok((account, request))
        },
        None => Err(ApiError::not_found("Account not found")),
    }
}

/// What an account comes to that is authorized again: with a token it is stored
/// anew with that and without errors; without one it stays as it is, and why is
/// told.
pub open spec fn reauthorized(
    before: AccountStore,
    after: AccountStore,
    account: CopilotAccount,
    response: Result<CopilotTokenResponse, String>,
    outcome: Result<Json, ApiError>,
) -> bool {
    match response {
        Ok(given) => {
            &&& after.accounts() == update_first(
                before.accounts(),
                has_id(account.id@),
                becomes(refreshed(account, given.token, given.expires_at)),
            )
            &&& outcome matches Ok(answer) && answer@ == Tree::Object(
                map!["id"@ => Tree::Text(account.id@), "status"@ => Tree::Text("active"@)],
            )
        },
        Err(message) => {
            &&& after.accounts() == before.accounts()
            &&& outcome matches Err(error) && error.is(500, message@)
        },
    }
}

/// Gives an account its new token, where the service gave one.
pub fn finish_reauth(
    store: &mut AccountStore,
    account: CopilotAccount,
    response: Result<CopilotTokenResponse, String>,
) -> (outcome: Result<Json, ApiError>)
    ensures
        reauthorized(*old(store), *final(store), account, response, outcome),
        match response {
            Ok(given) => {
                let updated = refreshed(account, given.token, given.expires_at);
                &&& final(store).accounts() == update_first(
                    old(store).accounts(),
                    has_id(account.id@),
                    becomes(updated),
                )
                &&& outcome matches Ok(answer) && answer@ == Tree::Object(
                    map![
                        "id"@ => Tree::Text(account.id@),
                        "status"@ => Tree::Text("active"@),
                    ],
                )
            },
            Err(message) => {
                &&& final(store).accounts() == old(store).accounts()
                &&& outcome matches Err(error) && error.is(500, message@)
            },
        },
        final(store).turn() == old(store).turn(),
        final(store).keys() == old(store).keys(),
{
    match response {
        Ok(given) => {
            let mut updated: CopilotAccount = account;
            refresh(&mut updated, given.token, given.expires_at);
            let mut members: Object = Object::new();
            members.insert("id", Json::text(updated.id.as_str()));
            members.insert("status", Json::Text(updated.status.to_string()));
            store.update_account(updated);
            Ok(Json::Object(members))
        },
        Err(message) => Err(ApiError::new(500, message.as_str())),
    }
}

// ---------------------------------------------------------------------------
// Keys
// ---------------------------------------------------------------------------

/// A key as the administrator is told of it.
pub open spec fn key_tree() -> spec_fn(ApiKeyEntry) -> Tree {
    |entry: ApiKeyEntry|
        Tree::Object(
            map![
                "key"@ => Tree::Text(entry.key@),
                "label"@ => Tree::Text(entry.label@),
                "createdAt"@ => Tree::Int(entry.created_at as int),
                "lastUsed"@ => time_tree(entry.last_used),
                "requestCount"@ => Tree::Int(entry.request_count as int),
            ],
        )
}

fn describe_key(entry: &ApiKeyEntry) -> (described: Json)
    ensures
        described@ == key_tree()(*entry),
{
    let mut members: Object = Object::new();
    members.insert("key", Json::text(entry.key.as_str()));
    members.insert("label", Json::text(entry.label.as_str()));
    members.insert("createdAt", Json::unsigned(entry.created_at));
    members.insert("lastUsed", time_json(entry.last_used));
    members.insert("requestCount", Json::unsigned(entry.request_count));
    Json::Object(members)
}

/// The keys.
pub fn list_api_keys(store: &AccountStore) -> (answer: Json)
    ensures
        answer@ == Tree::Array(store.keys().map_values(key_tree())),
{
    let mut list: Vec<Json> = Vec::new();
    let count: usize = store.data.api_keys.len();
    let mut i: usize = 0;
    while i < count
        invariant
            i <= count,
            count == store.keys().len(),
            list.len() == i,
            forall|j: int| 0 <= j < i ==> (#[trigger] list@[j])@ == key_tree()(store.keys()[j]),
        decreases count - i,
    {
        list.push(describe_key(&store.data.api_keys[i]));
        i = i + 1;
    }
    proof {
        lemma_trees(list@);
        assert(trees(list@) =~= store.keys().map_values(key_tree()));
    }
    Json::Array(list)
}

/// What makes a key.
#[derive(Debug)]
pub struct CreateKeyRequest {
    pub label: Option<String>,
}

/// The entry is a new one for that request.
pub open spec fn is_asked_key(entry: ApiKeyEntry, body: CreateKeyRequest, id: Seq<char>) -> bool {
    &&& is_new_key(entry, id, entry.label, entry.created_at)
    &&& entry.label@ == or_default(body.label, "User Key"@)
}

/// Makes a key from that id, as of that time, and tells the administrator of
/// it.
pub fn create_api_key_with(
    store: &mut AccountStore,
    body: &CreateKeyRequest,
    id: &str,
    now: u64,
) -> (answer: Json)
    ensures
        final(store).keys().len() == old(store).keys().len() + 1,
        final(store).keys() == old(store).keys().push(final(store).keys().last()),
        is_asked_key(final(store).keys().last(), *body, id@),
        final(store).keys().last().created_at == now,
        answer@ == key_tree()(final(store).keys().last()),
        final(store).accounts() == old(store).accounts(),
        final(store).turn() == old(store).turn(),
{
    let label: String = or_text(&body.label, "User Key");
    let entry: ApiKeyEntry = store.add_api_key_with(id, now, label);
    describe_key(&entry)
}

/// Makes a random key, as of now, and tells the administrator of it.
pub fn create_api_key(store: &mut AccountStore, body: &CreateKeyRequest) -> (answer: Json)
    ensures
        final(store).keys().len() == old(store).keys().len() + 1,
        final(store).keys() == old(store).keys().push(final(store).keys().last()),
        exists|id: Seq<char>| #[trigger]
            is_uuid(id) && is_asked_key(final(store).keys().last(), *body, id),
        is_reading(final(store).keys().last().created_at),
        answer@ == key_tree()(final(store).keys().last()),
        final(store).accounts() == old(store).accounts(),
        final(store).turn() == old(store).turn(),
{
    let label: String = or_text(&body.label, "User Key");
    let entry: ApiKeyEntry = store.add_api_key(label);
    describe_key(&entry)
}

/// Revokes a key.
pub fn revoke_api_key(store: &mut AccountStore, key: &str) -> (outcome: Result<Json, ApiError>)
    ensures
        match outcome {
            Ok(answer) => knows_key(*old(store), key@) && answer@ == success_tree(),
            Err(error) => !knows_key(*old(store), key@) && error.is(404, "Key not found"@),
        },
        final(store).keys() == old(store).keys().filter(has_other_key(key@)),
        final(store).accounts() == old(store).accounts(),
        final(store).turn() == old(store).turn(),
{
    if store.remove_api_key(key) {
        Ok(success())
    } else {
        Err(ApiError::not_found("Key not found"))
    }
}

// ---------------------------------------------------------------------------
// Statistics
// ---------------------------------------------------------------------------

/// The requests counted under these keys.
pub open spec fn total_requests(keys: Seq<ApiKeyEntry>) -> int
    decreases keys.len(),
{
    if keys.len() == 0 {
        0
    } else {
        total_requests(keys.drop_last()) + keys.last().request_count
    }
}

/// The account stands as active, with or without a token.
pub open spec fn stands_active() -> spec_fn(CopilotAccount) -> bool {
    |account: CopilotAccount| account.status == AccountStatus::Active
}

/// An account in the statistics.
pub open spec fn summary_tree() -> spec_fn(CopilotAccount) -> Tree {
    |account: CopilotAccount|
        Tree::Object(
            map![
                "id"@ => Tree::Text(short_form(account.id@)),
                "label"@ => Tree::Text(account.label@),
                "status"@ => Tree::Text(account.status.name()),
                "lastUsed"@ => time_tree(account.last_used),
                "errorCount"@ => Tree::Int(account.error_count as int),
            ],
        )
}

/// The statistics: how many accounts and keys there are, and how many requests
/// were counted, with the wrap of a `u64`.
pub open spec fn stats_tree(store: AccountStore) -> Tree {
    Tree::Object(
        map![
            "totalAccounts"@ => Tree::Int(store.accounts().len() as int),
            "activeAccounts"@ => Tree::Int(store.accounts().filter(stands_active()).len() as int),
            "totalKeys"@ => Tree::Int(store.keys().len() as int),
            "totalRequests"@ => Tree::Int(wrap_u64(total_requests(store.keys())) as int),
            "accounts"@ => Tree::Array(store.accounts().map_values(summary_tree())),
        ],
    )
}

/// Every account's id can be cut to its short form.
pub open spec fn ids_are_short(store: AccountStore) -> bool {
    forall|i: int|
        0 <= i < store.accounts().len() ==> has_short_form(#[trigger] store.accounts()[i].id@)
}

fn summarize_account(account: &CopilotAccount) -> (summary: Json)
    requires
        has_short_form(account.id@),
    ensures
        summary@ == summary_tree()(*account),
{
    let mut members: Object = Object::new();
    members.insert("id", Json::Text(short_id(account.id.as_str())));
    members.insert("label", Json::text(account.label.as_str()));
    members.insert("status", Json::Text(account.status.to_string()));
    members.insert("lastUsed", time_json(account.last_used));
    members.insert("errorCount", Json::unsigned(account.error_count as u64));
    Json::Object(members)
}

/// How many accounts stand as active.
fn count_active(store: &AccountStore) -> (active: usize)
    ensures
        active == store.accounts().filter(stands_active()).len(),
{
    let count: usize = store.data.accounts.len();
    let mut active: usize = 0;
    let mut i: usize = 0;
    proof {
        reveal(Seq::filter);
        assert(store.accounts().take(0).filter(stands_active()) =~= seq![]);
    }
    while i < count
        invariant
            i <= count,
            count == store.accounts().len(),
            active == store.accounts().take(i as int).filter(stands_active()).len(),
            active <= i,
        decreases count - i,
    {
        proof {
            lemma_filter_take(store.accounts(), stands_active(), i as int);
        }
        if store.data.accounts[i].status == AccountStatus::Active {
            active = active + 1;
        }
        i = i + 1;
    }
    proof {
        assert(store.accounts().take(count as int) =~= store.accounts());
    }
    active
}

/// The requests counted under all keys.
fn count_requests(store: &AccountStore) -> (total: u64)
    ensures
        total == wrap_u64(total_requests(store.keys())),
{
    let count: usize = store.data.api_keys.len();
    let mut total: u64 = 0;
    let mut i: usize = 0;
    while i < count
        invariant
            i <= count,
            count == store.keys().len(),
            total == wrap_u64(total_requests(store.keys().take(i as int))),
        decreases count - i,
    {
        let ghost before = total;
        let added: u64 = store.data.api_keys[i].request_count;
        total = total.wrapping_add(added);
        proof {
            let taken = store.keys().take(i + 1);
            assert(taken.drop_last() =~= store.keys().take(i as int));
            let sum = total_requests(store.keys().take(i as int));
            vstd::arithmetic::div_mod::lemma_add_mod_noop(
                sum,
                added as int,
                0x1_0000_0000_0000_0000,
            );
            vstd::arithmetic::div_mod::lemma_add_mod_noop(
                before as int,
                added as int,
                0x1_0000_0000_0000_0000,
            );
        }
        i = i + 1;
    }
    proof {
        assert(store.keys().take(count as int) =~= store.keys());
    }
    total
}

/// The statistics.
pub fn get_stats(store: &AccountStore) -> (answer: Json)
    requires
        ids_are_short(*store),
    ensures
        answer@ == stats_tree(*store),
{
    let mut list: Vec<Json> = Vec::new();
    let count: usize = store.data.accounts.len();
    let mut i: usize = 0;
    while i < count
        invariant
            i <= count,
            count == store.accounts().len(),
            ids_are_short(*store),
            list.len() == i,
            forall|j: int|
                0 <= j < i ==> (#[trigger] list@[j])@ == summary_tree()(store.accounts()[j]),
        decreases count - i,
    {
        proof {
            assert(has_short_form(store.accounts()[i as int].id@));
        }
        list.push(summarize_account(&store.data.accounts[i]));
        i = i + 1;
    }
    proof {
        lemma_trees(list@);
        assert(trees(list@) =~= store.accounts().map_values(summary_tree()));
    }
    let mut members: Object = Object::new();
    members.insert("totalAccounts", Json::unsigned(count as u64));
    members.insert("activeAccounts", Json::unsigned(count_active(store) as u64));
    members.insert("totalKeys", Json::unsigned(store.data.api_keys.len() as u64));
    members.insert("totalRequests", Json::unsigned(count_requests(store)));
    members.insert("accounts", Json::Array(list));
    Json::Object(members)
}

// ---------------------------------------------------------------------------
// Laws
// ---------------------------------------------------------------------------

/// A started session is pending under its code, and once taken out it is not:
/// a device code can be used once.
pub proof fn law_device_code_is_used_once(
    sessions: Map<Seq<char>, Session>,
    code: Seq<char>,
    session: Session,
)
    ensures
        sessions.insert(code, session).contains_key(code),
        !sessions.insert(code, session).remove(code).contains_key(code),
{
}

/// A session is dropped when its time is over and not before. (A clock that
/// stands before the start of the session is left out.)
pub proof fn law_sessions_end(sessions: Map<Seq<char>, Session>, code: Seq<char>, now: u64)
    requires
        sessions.contains_key(code),
        sessions[code].ts <= now,
    ensures
        fresh_sessions(sessions, now).contains_key(code) <==> now - sessions[code].ts
            < SESSION_MILLIS,
        fresh_sessions(sessions, now).contains_key(code) ==> fresh_sessions(sessions, now)[code]
            == sessions[code],
{
}

/// The administrator is told neither of an account's tokens: its description
/// has no member for them and is the same with any others.
pub proof fn law_tokens_are_not_told(
    account: CopilotAccount,
    github_token: String,
    copilot_token: Option<String>,
)
    ensures
        account_tree()(account).get("githubToken"@) is None,
        account_tree()(account).get("copilotToken"@) is None,
        account_tree()((CopilotAccount { github_token, copilot_token, ..account }))
            == account_tree()(account),
{
    reveal_strlit("githubToken");
    reveal_strlit("copilotToken");
    reveal_strlit("id");
    reveal_strlit("label");
    reveal_strlit("accountType");
    reveal_strlit("status");
    reveal_strlit("lastUsed");
    reveal_strlit("errorCount");
    reveal_strlit("createdAt");
    assert("githubToken"@.len() == 11);
    assert("copilotToken"@.len() == 12);
    assert("id"@.len() == 2);
    assert("label"@.len() == 5);
    assert("accountType"@.len() == 11);
    assert("status"@.len() == 6);
    assert("lastUsed"@.len() == 8);
    assert("errorCount"@.len() == 10);
    assert("createdAt"@.len() == 9);
    assert("githubToken"@[0] != "accountType"@[0]);
}

/// The names in what the administrator is told are distinct.
proof fn lemma_told_names()
    ensures
        "id"@.len() == 2,
        "label"@.len() == 5,
        "accountType"@.len() == 11,
        "status"@.len() == 6,
        "lastUsed"@.len() == 8,
        "errorCount"@.len() == 10,
        "createdAt"@.len() == 9,
        "key"@.len() == 3,
        "requestCount"@.len() == 12,
        "totalAccounts"@.len() == 13,
        "activeAccounts"@.len() == 14,
        "totalKeys"@.len() == 9,
        "totalRequests"@.len() == 13,
        "accounts"@.len() == 8,
        "warning"@.len() == 7,
        "success"@.len() == 7,
        "device_code"@.len() == 11,
        "user_code"@.len() == 9,
        "verification_uri"@.len() == 16,
        "expires_in"@.len() == 10,
        "interval"@.len() == 8,
        "warning"@ != "success"@,
        "lastUsed"@ != "accounts"@,
        "lastUsed"@ != "interval"@,
        "accounts"@ != "interval"@,
        "createdAt"@ != "totalKeys"@,
        "createdAt"@ != "user_code"@,
        "totalKeys"@ != "user_code"@,
        "errorCount"@ != "expires_in"@,
        "accountType"@ != "device_code"@,
        "totalAccounts"@ != "totalRequests"@,
{
    reveal_strlit("id");
    reveal_strlit("label");
    reveal_strlit("accountType");
    reveal_strlit("status");
    reveal_strlit("lastUsed");
    reveal_strlit("errorCount");
    reveal_strlit("createdAt");
    reveal_strlit("key");
    reveal_strlit("requestCount");
    reveal_strlit("totalAccounts");
    reveal_strlit("activeAccounts");
    reveal_strlit("totalKeys");
    reveal_strlit("totalRequests");
    reveal_strlit("accounts");
    reveal_strlit("warning");
    reveal_strlit("success");
    reveal_strlit("device_code");
    reveal_strlit("user_code");
    reveal_strlit("verification_uri");
    reveal_strlit("expires_in");
    reveal_strlit("interval");
    assert("id"@.len() == 2);
    assert("label"@.len() == 5);
    assert("accountType"@.len() == 11);
    assert("status"@.len() == 6);
    assert("lastUsed"@.len() == 8);
    assert("errorCount"@.len() == 10);
    assert("createdAt"@.len() == 9);
    assert("key"@.len() == 3);
    assert("requestCount"@.len() == 12);
    assert("totalAccounts"@.len() == 13);
    assert("activeAccounts"@.len() == 14);
    assert("totalKeys"@.len() == 9);
    assert("totalRequests"@.len() == 13);
    assert("accounts"@.len() == 8);
    assert("warning"@.len() == 7);
    assert("success"@.len() == 7);
    assert("device_code"@.len() == 11);
    assert("user_code"@.len() == 9);
    assert("verification_uri"@.len() == 16);
    assert("expires_in"@.len() == 10);
    assert("interval"@.len() == 8);
    assert("warning"@[0] != "success"@[0]);
    assert("lastUsed"@[0] != "accounts"@[0]);
    assert("lastUsed"@[0] != "interval"@[0]);
    assert("accounts"@[0] != "interval"@[0]);
    assert("createdAt"@[0] != "totalKeys"@[0]);
    assert("createdAt"@[0] != "user_code"@[0]);
    assert("totalKeys"@[0] != "user_code"@[0]);
    assert("errorCount"@[1] != "expires_in"@[1]);
    assert("accountType"@[0] != "device_code"@[0]);
    assert("totalAccounts"@[5] != "totalRequests"@[5]);
}

/// A time as it is told: itself, or null where it has not come.
pub open spec fn told_time(time: Option<u64>) -> Tree {
    if time is Some {
        Tree::Int(time->0 as int)
    } else {
        Tree::Null
    }
}

/// The administrator is told of every account, in order, what it is, how it stands
/// and how it was used.
pub proof fn law_accounts_are_listed(accounts: Seq<CopilotAccount>, i: int)
    requires
        0 <= i < accounts.len(),
    ensures
        accounts.map_values(account_tree()).len() == accounts.len(),
        ({
            let told = accounts.map_values(account_tree())[i];
            &&& told.at("id"@) == Tree::Text(accounts[i].id@)
            &&& told.at("label"@) == Tree::Text(accounts[i].label@)
            &&& told.at("accountType"@) == Tree::Text(accounts[i].account_type@)
            &&& told.at("status"@) == Tree::Text(accounts[i].status.name())
            &&& told.at("lastUsed"@) == told_time(accounts[i].last_used)
            &&& told.at("errorCount"@) == Tree::Int(accounts[i].error_count as int)
            &&& told.at("createdAt"@) == Tree::Int(accounts[i].created_at as int)
        }),
{
    lemma_told_names();
}

/// The administrator is told of every key, in order, what it is and how it was
/// used.
pub proof fn law_keys_are_listed(keys: Seq<ApiKeyEntry>, i: int)
    requires
        0 <= i < keys.len(),
    ensures
        keys.map_values(key_tree()).len() == keys.len(),
        ({
            let told = keys.map_values(key_tree())[i];
            &&& told.at("key"@) == Tree::Text(keys[i].key@)
            &&& told.at("label"@) == Tree::Text(keys[i].label@)
            &&& told.at("createdAt"@) == Tree::Int(keys[i].created_at as int)
            &&& told.at("lastUsed"@) == told_time(keys[i].last_used)
            &&& told.at("requestCount"@) == Tree::Int(keys[i].request_count as int)
        }),
{
    lemma_told_names();
}

/// The statistics count all accounts, those that stand as active, all keys and
/// the requests under all keys: one account more counts once, and as active where
/// it is; one key more adds its requests. (A sum that wraps is left out.)
pub proof fn law_statistics_count_all(
    before: AccountStore,
    after: AccountStore,
    account: CopilotAccount,
    entry: ApiKeyEntry,
)
    requires
        after.accounts() == before.accounts().push(account),
        after.keys() == before.keys().push(entry),
        0 <= total_requests(before.keys()),
        total_requests(after.keys()) <= u64::MAX,
    ensures
        stats_tree(after).at("totalAccounts"@) == Tree::Int(before.accounts().len() as int + 1),
        stats_tree(after).at("totalKeys"@) == Tree::Int(before.keys().len() as int + 1),
        stats_tree(after).at("totalRequests"@) == Tree::Int(
            stats_tree(before).at("totalRequests"@)->Int_0 + entry.request_count,
        ),
        stats_tree(before).at("activeAccounts"@) is Int,
        stats_tree(after).at("activeAccounts"@) == Tree::Int(
            stats_tree(before).at("activeAccounts"@)->Int_0 + if account.status
                == AccountStatus::Active {
                1int
            } else {
                0
            },
        ),
        before.keys().len() == 0 ==> stats_tree(before).at("totalRequests"@) == Tree::Int(0),
        before.accounts().len() == 0 ==> stats_tree(before).at("activeAccounts"@) == Tree::Int(0),
{
    lemma_told_names();
    crate::seqs::lemma_filter_pushed(before.accounts(), account, stands_active());
    before.accounts().lemma_filter_len(stands_active());
    assert(after.keys().drop_last() =~= before.keys());
    let total = total_requests(after.keys());
    vstd::arithmetic::div_mod::lemma_small_mod(total as nat, 0x1_0000_0000_0000_0000);
    vstd::arithmetic::div_mod::lemma_small_mod(
        total_requests(before.keys()) as nat,
        0x1_0000_0000_0000_0000,
    );
}

/// The statistics tell of every account, in order, its short form, how it stands
/// and how it was used.
pub proof fn law_statistics_tell_of_accounts(store: AccountStore, i: int)
    requires
        0 <= i < store.accounts().len(),
    ensures
        stats_tree(store).at("accounts"@) matches Tree::Array(told) && told.len()
            == store.accounts().len() && {
            &&& told[i].at("id"@) == Tree::Text(short_form(store.accounts()[i].id@))
            &&& told[i].at("label"@) == Tree::Text(store.accounts()[i].label@)
            &&& told[i].at("status"@) == Tree::Text(store.accounts()[i].status.name())
            &&& told[i].at("lastUsed"@) == told_time(store.accounts()[i].last_used)
            &&& told[i].at("errorCount"@) == Tree::Int(store.accounts()[i].error_count as int)
        },
{
    lemma_told_names();
}

/// A new account is told by its id, its label and how it stands, with a warning
/// where it has no token.
pub proof fn law_new_accounts_are_told(account: CopilotAccount)
    ensures
        added_tree(account).at("id"@) == Tree::Text(account.id@),
        added_tree(account).at("label"@) == Tree::Text(account.label@),
        added_tree(account).at("status"@) == Tree::Text(account.status.name()),
        added_tree(account).get("warning"@) is None,
        warned_tree(account).at("id"@) == Tree::Text(account.id@),
        warned_tree(account).at("label"@) == Tree::Text(account.label@),
        warned_tree(account).at("status"@) == Tree::Text(account.status.name()),
        warned_tree(account).at("warning"@) == Tree::Text(
            "GitHub token saved but Copilot token fetch failed. Try re-auth."@,
        ),
        success_tree().at("success"@) == Tree::Bool(true),
{
    lemma_told_names();
}

/// A new account is labelled as was asked for, or `Account`, behind the name of
/// its user where that is known; and is individual unless asked for else.
pub proof fn law_new_accounts_are_labelled(
    account: CopilotAccount,
    body: AddAccountRequest,
    user: Option<GitHubUser>,
    github_token: Seq<char>,
)
    requires
        is_asked_account(account, body, user_name(user), github_token),
    ensures
        ({
            let label = if body.label is Some {
                body.label->0@
            } else {
                "Account"@
            };
            account.label@ == if user is Some && user->0.login@.len() > 0 {
                user->0.login@ + (" ("@ + (label + ")"@))
            } else {
                label
            }
        }),
        account.account_type@ == if body.account_type is Some {
            body.account_type->0@
        } else {
            "individual"@
        },
        account.github_token@ == github_token,
        account.status == AccountStatus::Inactive && account.copilot_token is None,
{
    let label = or_default(body.label, "Account"@);
    assert(user_name(user) + " ("@ + label + ")"@ =~= user_name(user) + (" ("@ + (label
        + ")"@)));
}

/// The caller is told of a started device flow what the service gave, and its
/// session is pending from then on, for the account type that was asked for.
pub proof fn law_device_flow_starts(
    before: Map<Seq<char>, Session>,
    after: Map<Seq<char>, Session>,
    body: DeviceCodeRequest,
    given: DeviceCodeResponse,
    now: u64,
    outcome: Result<Json, ApiError>,
)
    requires
        device_code_outcome(before, after, body, Ok(given), now, outcome),
    ensures
        outcome matches Ok(answer) && {
            &&& answer@.at("device_code"@) == Tree::Text(given.device_code@)
            &&& answer@.at("user_code"@) == Tree::Text(given.user_code@)
            &&& answer@.at("verification_uri"@) == Tree::Text(given.verification_uri@)
            &&& answer@.at("expires_in"@) == Tree::Int(given.expires_in as int)
            &&& answer@.at("interval"@) == Tree::Int(given.interval as int)
        },
        after.contains_key(given.device_code@),
        after[given.device_code@].ts == now,
        after[given.device_code@].account_type == if body.account_type is Some {
            body.account_type->0@
        } else {
            "individual"@
        },
        forall|code: Seq<char>|
            code != given.device_code@ && #[trigger] before.contains_key(code)
                ==> after.contains_key(code) && after[code] == before[code],
{
    lemma_told_names();
}

/// A session stands for fifteen minutes.
pub proof fn law_sessions_stand_fifteen_minutes(session: Session, now: u64)
    requires
        session.ts <= now,
    ensures
        is_fresh(session, now) <==> now - session.ts < 15 * 60 * 1000,
{
}

/// A new key is labelled as was asked for, or `User Key`, and was never used.
pub proof fn law_new_keys_are_labelled(entry: ApiKeyEntry, body: CreateKeyRequest, id: Seq<char>)
    requires
        is_asked_key(entry, body, id),
    ensures
        entry.label@ == if body.label is Some {
            body.label->0@
        } else {
            "User Key"@
        },
        entry.key@ == crate::ids::api_key_text(id),
        entry.request_count == 0 && entry.last_used is None,
{
}

/// A device flow that the service did not start is answered with 502 and why, and
/// leaves the sessions as they are.
pub proof fn law_device_flow_fails(
    before: Map<Seq<char>, Session>,
    after: Map<Seq<char>, Session>,
    body: DeviceCodeRequest,
    message: String,
    now: u64,
    outcome: Result<Json, ApiError>,
)
    requires
        device_code_outcome(before, after, body, Err(message), now, outcome),
    ensures
        after == before,
        outcome matches Err(error) && error.status == 502 && error.message@ == message@,
{
}

/// An account, or a key, is known exactly where it is stored.
pub proof fn law_stored_is_known(store: AccountStore, i: int, k: int, id: Seq<char>, key: Seq<char>)
    ensures
        0 <= i < store.accounts().len() ==> knows_account(store, store.accounts()[i].id@),
        0 <= k < store.keys().len() ==> knows_key(store, store.keys()[k].key@),
        knows_account(store, id) ==> exists|n: int|
            0 <= n < store.data.accounts@.len() && (#[trigger] store.data.accounts@[n]).id@ == id,
        knows_key(store, key) ==> exists|n: int|
            0 <= n < store.data.api_keys@.len() && (#[trigger] store.data.api_keys@[n]).key@ == key,
{
}

/// A token that is given is taken and leaves the sessions alone. A device code is
/// polled for where its session is pending, and is used up by it; no other session
/// is touched. All else is the caller's error.
pub proof fn law_tokens_come_from_somewhere(
    before: Map<Seq<char>, Session>,
    after: Map<Seq<char>, Session>,
    body: AddAccountRequest,
    source: Result<TokenSource, ApiError>,
    code: Seq<char>,
)
    requires
        source_outcome(before, after, body, source),
    ensures
        body.github_token is Some ==> source == Ok::<TokenSource, ApiError>(
            TokenSource::Given(body.github_token->0),
        ) && after == before,
        body.github_token is None && body.device_code is Some && body.device_code->0@ == code ==> {
            &&& !after.contains_key(code)
            &&& before.contains_key(code) ==> source == Ok::<TokenSource, ApiError>(
                TokenSource::Polled(body.device_code->0),
            )
            &&& !before.contains_key(code) ==> (source matches Err(error) && error.status == 400
                && error.message@ == "Device code expired or not found"@)
        },
        body.github_token is None && body.device_code is Some && body.device_code->0@ != code ==> (
        after.contains_key(code) <==> before.contains_key(code)) && (before.contains_key(code)
            ==> after[code] == before[code]),
        body.github_token is None && body.device_code is None ==> after == before && (
        source matches Err(error) && error.status == 400 && error.message@
            == "Provide githubToken or deviceCode"@),
{
}

/// An account that is given a token is stored with it in its place, active, and no
/// other account changes; a new one is told of without a warning, and one that is
/// authorized again has no errors left. Without a token no account changes.
pub proof fn law_given_tokens_are_stored(
    before: AccountStore,
    after: AccountStore,
    account: CopilotAccount,
    given: CopilotTokenResponse,
    answer: Tree,
    outcome: Result<Json, ApiError>,
    i: int,
)
    requires
        0 <= i < before.accounts().len(),
        finished(before, after, account, Some(given), answer) || reauthorized(
            before,
            after,
            account,
            Ok(given),
            outcome,
        ),
    ensures
        after.accounts().len() == before.accounts().len(),
        !is_first_of(before.accounts(), i, account.id@) ==> after.accounts()[i]
            == before.accounts()[i],
        is_first_of(before.accounts(), i, account.id@) ==> {
            &&& after.accounts()[i].copilot_token == Some(given.token)
            &&& after.accounts()[i].status == AccountStatus::Active
            &&& after.accounts()[i].id == account.id
            &&& after.accounts()[i].label == account.label
            &&& after.accounts()[i].github_token == account.github_token
            &&& after.accounts()[i].account_type == account.account_type
            &&& after.accounts()[i].last_used == account.last_used
            &&& after.accounts()[i].created_at == account.created_at
        },
        finished(before, after, account, Some(given), answer) ==> answer.at("id"@) == Tree::Text(
            account.id@,
        ) && answer.at("status"@) == Tree::Text("active"@) && answer.get("warning"@) is None,
        reauthorized(before, after, account, Ok(given), outcome) ==> (outcome matches Ok(told)
            && told@.at("id"@) == Tree::Text(account.id@) && told@.at("status"@) == Tree::Text(
            "active"@,
        )) && (is_first_of(before.accounts(), i, account.id@) ==> after.accounts()[i].error_count
            == 0),
{
    lemma_told_names();
    let plain = activated(account, given.token, given.expires_at);
    let cleared = refreshed(account, given.token, given.expires_at);
    crate::account_store::law_notes_are_of_one_account(
        before.accounts(),
        account.id@,
        0,
        plain,
        i,
    );
    crate::account_store::law_notes_are_of_one_account(
        before.accounts(),
        account.id@,
        0,
        cleared,
        i,
    );
}

/// Without a token nothing changes: a new account is told of with a warning, and
/// one that was to be authorized again is answered with 500 and why.
pub proof fn law_missing_tokens_are_told(
    before: AccountStore,
    after: AccountStore,
    account: CopilotAccount,
    answer: Tree,
    message: String,
    outcome: Result<Json, ApiError>,
)
    ensures
        finished(before, after, account, None, answer) ==> after.accounts() == before.accounts()
            && answer.get("warning"@) is Some && answer.at("id"@) == Tree::Text(account.id@),
        reauthorized(before, after, account, Err(message), outcome) ==> after.accounts()
            == before.accounts() && (outcome matches Err(error) && error.status == 500
            && error.message@ == message@),
{
    lemma_told_names();
}

} // verus!
