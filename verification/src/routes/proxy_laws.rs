//! What holds of every request: who may call, which account serves, what is sent
//! on, what is answered and what is noted.

use vstd::prelude::*;
use vstd::string::*;

use crate::account_store::{
    has_id, has_key, is_first_entry, is_first_of, law_requests_count_under_their_key,
    same_but_use, used_at, AccountStore, ApiKeyEntry,
};
use crate::json::{Json, Tree};
use crate::routes::proxy::{
    bearer_key, can_be_noted, chat_outcome, chat_refusal, context_outcome, counted_keys,
    first_token, is_authorized, is_log_line, is_marked_well, is_relayed, models_outcome,
    models_tree, rate_step, relay_refusal, responses_outcome, resumed_outcome, sends_chat,
    sends_messages, served, short_form, stream_header_views, text_view, ContextStep, Forward,
    RateStep, Reply,
};
use crate::routes::translate::openai_request;
use crate::routes::ApiError;
use crate::seqs::{lemma_position, lemma_update_first_at};
use crate::services::copilot::{chat_headers, failure, stands_in};
use crate::services::{header_views, Method, ServiceRequest};
use crate::state::{
    base_url, copilot_header_views, last_entries, AppState, RequestContext, TrafficLogEntry,
};
use crate::text::{law_patterns_are_found, occurs, starts_with};

verus! {

// ---------------------------------------------------------------------------
// Who may call
// ---------------------------------------------------------------------------

/// The header shows that key.
pub open spec fn shows(header: Option<Seq<char>>, key: Seq<char>) -> bool {
    header == Some("Bearer "@ + key)
}

/// The header shows one of the keys.
pub open spec fn shows_stored_key(header: Option<Seq<char>>, keys: Seq<ApiKeyEntry>) -> bool {
    exists|i: int|
        0 <= i < keys.len() && (#[trigger] keys[i]).key@.len() > 0 && shows(header, keys[i].key@)
}

proof fn lemma_shown(header: Option<Seq<char>>, key: Seq<char>)
    ensures
        key.len() > 0 ==> (shows(header, key) <==> bearer_key(header) == key),
{
    reveal_strlit("Bearer ");
    assert("Bearer "@.len() == 7);
    match header {
        Some(text) => {
            law_patterns_are_found(text, seq![], "Bearer "@, key);
            if shows(header, key) {
                assert(text.skip(7) =~= key);
            }
        },
        None => {},
    }
}

proof fn lemma_admitted(keys: Seq<ApiKeyEntry>, header: Option<Seq<char>>)
    ensures
        is_authorized(keys, header) <==> keys.len() == 0 || shows_stored_key(header, keys),
{
    let key = bearer_key(header);
    lemma_position(keys, has_key(key));
    if keys.len() > 0 && is_authorized(keys, header) {
        let i = crate::seqs::position(keys, has_key(key))->0;
        assert(has_key(key)(keys[i]));
        lemma_shown(header, key);
        assert(shows_stored_key(header, keys));
    }
    if shows_stored_key(header, keys) {
        let i = choose|i: int|
            0 <= i < keys.len() && (#[trigger] keys[i]).key@.len() > 0 && shows(
                header,
                keys[i].key@,
            );
        lemma_shown(header, keys[i].key@);
        assert(has_key(key)(keys[i]));
    }
}

/// Every stored key admits whoever shows it, wherever it stands among the keys.
pub proof fn law_every_stored_key_admits(keys: Seq<ApiKeyEntry>, i: int)
    requires
        0 <= i < keys.len(),
        keys[i].key@.len() > 0,
    ensures
        is_authorized(keys, Some("Bearer "@ + keys[i].key@)),
{
    assert(shows(Some("Bearer "@ + keys[i].key@), keys[i].key@));
    lemma_admitted(keys, Some("Bearer "@ + keys[i].key@));
}

/// While there are keys, only a stored key admits; while there are none, everyone
/// may call.
pub proof fn law_only_stored_keys_admit(keys: Seq<ApiKeyEntry>, header: Option<Seq<char>>)
    ensures
        keys.len() > 0 && is_authorized(keys, header) ==> exists|i: int|
            0 <= i < keys.len() && header == Some("Bearer "@ + (#[trigger] keys[i]).key@),
        keys.len() == 0 ==> is_authorized(keys, header),
{
    lemma_admitted(keys, header);
    if keys.len() > 0 && is_authorized(keys, header) {
        let i = choose|i: int|
            0 <= i < keys.len() && (#[trigger] keys[i]).key@.len() > 0 && shows(
                header,
                keys[i].key@,
            );
        assert(header == Some("Bearer "@ + keys[i].key@));
    }
}

/// A request counts under the key that is shown, and under no other: one more
/// request there, at that time.
pub proof fn law_requests_count_under_the_key_shown(
    keys: Seq<ApiKeyEntry>,
    header: Option<Seq<char>>,
    now: u64,
    shown: int,
    k: int,
)
    requires
        0 <= shown < keys.len(),
        0 <= k < keys.len(),
        keys[shown].key@.len() > 0,
        is_first_entry(keys, shown, keys[shown].key@),
        shows(header, keys[shown].key@),
    ensures
        counted_keys(keys, header, now).len() == keys.len(),
        k != shown ==> counted_keys(keys, header, now)[k] == keys[k],
        counted_keys(keys, header, now)[shown].last_used == Some(now),
        keys[shown].request_count < u64::MAX ==> counted_keys(keys, header, now)[shown].request_count
            == keys[shown].request_count + 1,
        counted_keys(keys, header, now)[shown].key == keys[shown].key,
        counted_keys(keys, header, now)[shown].label == keys[shown].label,
        counted_keys(keys, header, now)[shown].created_at == keys[shown].created_at,
{
    let key = keys[shown].key@;
    lemma_shown(header, key);
    law_requests_count_under_their_key(keys, key, now, shown);
    law_requests_count_under_their_key(keys, key, now, k);
    if k != shown {
        assert(!is_first_entry(keys, k, key)) by {
            if is_first_entry(keys, k, key) {
                if k < shown {
                    assert(keys[k].key@ != key);
                } else {
                    assert(keys[shown].key@ != key);
                }
            }
        }
    }
}

// ---------------------------------------------------------------------------
// Which account serves, and when
// ---------------------------------------------------------------------------

/// While there are keys, a request that shows none of them is refused with 401,
/// and nothing changes.
pub proof fn law_strangers_are_refused(
    before: AppState,
    after: AppState,
    header: Option<Seq<char>>,
    key_time: u64,
    now: u64,
    outcome: Result<ContextStep, ApiError>,
)
    requires
        context_outcome(before, after, header, key_time, now, outcome),
        before.store.keys().len() > 0,
        !shows_stored_key(header, before.store.keys()),
    ensures
        outcome matches Err(error) && error.status == 401 && error.message@ == "Unauthorized"@,
        after == before,
{
    lemma_admitted(before.store.keys(), header);
}

/// The limit holds a request up: another went on within so many seconds.
pub open spec fn is_held_up(state: AppState, now: u64) -> bool {
    match (state.config.rate_limit_seconds, state.last_request_timestamp) {
        (Some(seconds), Some(last)) => now < last + seconds * 1000,
        _ => false,
    }
}

/// The clock stands behind the last request, and the limit can be told in
/// milliseconds.
pub open spec fn is_in_time(state: AppState, now: u64) -> bool {
    &&& state.last_request_timestamp matches Some(last) ==> last <= now
    &&& state.config.rate_limit_seconds matches Some(seconds) ==> seconds * 1000 <= u64::MAX
}

/// The request goes to the account whose turn it is among the active ones, with
/// the tokens of that account, and the turn passes on; it is refused with 503
/// where no account is active.
pub open spec fn goes_to_the_next(
    before: AppState,
    after: AppState,
    outcome: Result<ContextStep, ApiError>,
) -> bool {
    let active = before.store.active();
    if active.len() == 0 {
        &&& outcome matches Err(error) && error.status == 503 && error.message@
            == "No active accounts available"@
        &&& after.store.turn() == before.store.turn()
    } else {
        let account = active[before.store.turn() % active.len() as int];
        &&& outcome matches Ok(ContextStep::Ready(ctx)) && {
            &&& ctx.account_id == Some(account.id)
            &&& Some(ctx.copilot_token@) == (match account.copilot_token {
                Some(token) => Some(token@),
                None => None,
            })
            &&& ctx.github_token == account.github_token
            &&& ctx.account_type == account.account_type
        }
        &&& before.store.turn() < usize::MAX ==> after.store.turn() == (before.store.turn() + 1)
            % active.len() as int
    }
}

/// An admitted request that nothing holds up goes to the next account; one that
/// the limit holds up is refused with 429, or waits for just as many whole seconds
/// as are missing, while neither the turn nor the time of the last request
/// changes. The accounts stay as they are.
pub proof fn law_admitted_requests_are_served(
    before: AppState,
    after: AppState,
    header: Option<Seq<char>>,
    key_time: u64,
    now: u64,
    outcome: Result<ContextStep, ApiError>,
)
    requires
        context_outcome(before, after, header, key_time, now, outcome),
        before.store.keys().len() == 0 || shows_stored_key(header, before.store.keys()),
        is_in_time(before, now),
    ensures
        after.store.accounts() == before.store.accounts(),
        after.store.keys() == counted_keys(before.store.keys(), header, key_time),
        after.config == before.config && after.models == before.models,
        after.vscode_version == before.vscode_version,
        after.traffic_logs == before.traffic_logs,
        !is_held_up(before, now) ==> goes_to_the_next(before, after, outcome),
        !is_held_up(before, now) && before.config.rate_limit_seconds is Some
            ==> after.last_request_timestamp == Some(now),
        is_held_up(before, now) ==> after.store.turn() == before.store.turn()
            && after.last_request_timestamp == before.last_request_timestamp,
        is_held_up(before, now) && !before.config.rate_limit_wait ==> (outcome matches Err(error)
            && error.status == 429 && error.message@ == "Rate limit exceeded"@),
        is_held_up(before, now) && before.config.rate_limit_wait ==> (outcome matches Ok(
            ContextStep::Wait(millis),
        ) && waits_for_what_is_missing(before, now, millis)),
{
    lemma_admitted(before.store.keys(), header);
    lemma_rate(before, now);
    lemma_active_has_token(before.store);
}

/// The request waits for as many whole seconds as are missing.
pub open spec fn waits_for_what_is_missing(state: AppState, now: u64, millis: u64) -> bool {
    match (state.config.rate_limit_seconds, state.last_request_timestamp) {
        (Some(seconds), Some(last)) => {
            &&& millis % 1000 == 0
            &&& now + millis >= last + seconds * 1000
            &&& now + millis < last + seconds * 1000 + 1000
        },
        _ => false,
    }
}

proof fn lemma_active_has_token(store: AccountStore)
    ensures
        forall|i: int|
            0 <= i < store.active().len() ==> (#[trigger] store.active()[i]).copilot_token is Some,
{
    assert forall|i: int| 0 <= i < store.active().len() implies (
    #[trigger] store.active()[i]).copilot_token is Some by {
        store.accounts().lemma_filter_pred(crate::account_store::ready(), i);
    }
    if store.active().len() > 0 {
        vstd::arithmetic::div_mod::lemma_mod_bound(store.turn(), store.active().len() as int);
    }
}

proof fn lemma_rate(state: AppState, now: u64)
    requires
        is_in_time(state, now),
    ensures
        ({
            let limit = state.config.rate_limit_seconds;
            let last = state.last_request_timestamp;
            &&& !is_held_up(state, now) ==> rate_step(limit, true, last, now) == RateStep::Proceed
                && rate_step(limit, false, last, now) == RateStep::Proceed
            &&& is_held_up(state, now) ==> rate_step(limit, false, last, now) == RateStep::Reject
                && (rate_step(limit, true, last, now) matches RateStep::Wait(millis)
                && waits_for_what_is_missing(state, now, millis))
        }),
{
}

/// A request that has waited goes to the next account where nothing holds it up
/// any more, and waits again where another has gone on meanwhile; it is not
/// refused for the rate, and its key is not counted again.
pub proof fn law_waiting_requests_go_on(
    before: AppState,
    after: AppState,
    now: u64,
    outcome: Result<ContextStep, ApiError>,
)
    requires
        resumed_outcome(before, after, now, outcome),
        is_in_time(before, now),
    ensures
        after.store.accounts() == before.store.accounts(),
        after.store.keys() == before.store.keys(),
        after.config == before.config,
        !is_held_up(before, now) ==> goes_to_the_next(before, after, outcome)
            && after.last_request_timestamp == Some(now),
        is_held_up(before, now) ==> after == before && (outcome matches Ok(ContextStep::Wait(millis))
            && waits_for_what_is_missing(before, now, millis)),
{
    lemma_rate(before, now);
    lemma_active_has_token(before.store);
}

// ---------------------------------------------------------------------------
// Models and tokens
// ---------------------------------------------------------------------------

/// The names in what callers are told of models are distinct.
proof fn lemma_model_names()
    ensures
        "id"@.len() == 2,
        "object"@.len() == 6,
        "created"@.len() == 7,
        "owned_by"@.len() == 8,
        "display_name"@.len() == 12,
        "data"@.len() == 4,
        "list"@.len() == 4,
        "model"@.len() == 5,
        "token"@.len() == 5,
        "data"@ != "list"@,
        "model"@ != "token"@,
{
    reveal_strlit("id");
    reveal_strlit("object");
    reveal_strlit("created");
    reveal_strlit("owned_by");
    reveal_strlit("display_name");
    reveal_strlit("data");
    reveal_strlit("list");
    reveal_strlit("model");
    reveal_strlit("token");
    assert("id"@.len() == 2);
    assert("object"@.len() == 6);
    assert("created"@.len() == 7);
    assert("owned_by"@.len() == 8);
    assert("display_name"@.len() == 12);
    assert("data"@.len() == 4);
    assert("list"@.len() == 4);
    assert("model"@.len() == 5);
    assert("token"@.len() == 5);
    assert("data"@[0] != "list"@[0]);
    assert("model"@[0] != "token"@[0]);
}

/// Callers are told of every known model, in order, by its id, its name and its
/// vendor; of none where none is known. While there are keys, a caller who shows
/// none of them is refused with 401 and nothing changes.
pub proof fn law_models_are_listed(
    before: AppState,
    after: AppState,
    header: Option<Seq<char>>,
    now: u64,
    outcome: Result<Json, ApiError>,
    i: int,
)
    requires
        models_outcome(before, after, header, now, outcome),
    ensures
        before.store.keys().len() > 0 && !shows_stored_key(header, before.store.keys()) ==> (
        outcome matches Err(error) && error.status == 401 && error.message@ == "Unauthorized"@)
            && after == before,
        before.store.keys().len() == 0 || shows_stored_key(header, before.store.keys()) ==> (
        outcome matches Ok(list) && list@.at("object"@) == Tree::Text("list"@) && (list@.at(
            "data"@,
        ) matches Tree::Array(data) && data.len() == known_models(before).len() && (0 <= i
            < data.len() ==> {
            &&& data[i].at("id"@) == Tree::Text(known_models(before)[i].id@)
            &&& data[i].at("object"@) == Tree::Text("model"@)
            &&& data[i].at("created"@) == Tree::Int(0)
            &&& data[i].at("owned_by"@) == Tree::Text(known_models(before)[i].vendor@)
            &&& data[i].at("display_name"@) == Tree::Text(known_models(before)[i].name@)
        }))),
{
    lemma_model_names();
    lemma_admitted(before.store.keys(), header);
    let data = models_tree(before).at("data"@);
    assert(data is Array);
}

/// The models that are known.
pub open spec fn known_models(state: AppState) -> Seq<crate::services::ModelInfo> {
    match state.models {
        Some(models) => models.data@,
        None => seq![],
    }
}

/// The token that is shown is that of the first account of the rotation.
pub proof fn law_first_token(store: AccountStore)
    ensures
        store.active().len() == 0 ==> first_token(store).len() == 0,
        store.active().len() > 0 ==> (store.active()[0].copilot_token matches Some(token)
            && first_token(store) == token@),
{
    lemma_active_has_token(store);
}

// ---------------------------------------------------------------------------
// What is sent on
// ---------------------------------------------------------------------------

/// A chat request is sent on with its payload as it is, to the chat of the
/// account's service, under the token of the account.
pub proof fn law_chats_are_sent_on(
    forward: Forward,
    ctx: RequestContext,
    version: Seq<char>,
    payload: Tree,
    request_id: Seq<char>,
    stream: bool,
    model: Seq<char>,
)
    requires
        forward.is(ctx, version, payload, request_id, stream, model),
    ensures
        forward.request.method == Method::Post,
        forward.request.url@ == base_url(ctx.account_type@) + "/chat/completions"@,
        forward.request.body matches Some(body) && body@ == payload,
        forward.request.headers@.len() >= 10,
        forward.request.headers@[0].0@ == "Authorization"@,
        forward.request.headers@[0].1@ == "Bearer "@ + ctx.copilot_token@,
        header_views(forward.request.headers@) == chat_headers(
            ctx.copilot_token@,
            version,
            payload,
            request_id,
        ),
        forward.stream == stream,
        forward.model@ == model,
{
    let views = header_views(forward.request.headers@);
    assert(views.len() == forward.request.headers@.len());
    assert(views[0] == (forward.request.headers@[0].0@, forward.request.headers@[0].1@));
}

/// Other requests are sent on as they are, to that path of the account's service,
/// under the token of the account.
pub proof fn law_others_are_sent_on(
    request: ServiceRequest,
    ctx: RequestContext,
    path: Seq<char>,
    version: Seq<char>,
    payload: Tree,
    request_id: Seq<char>,
)
    requires
        is_relayed(request, ctx, path, version, payload, request_id),
    ensures
        request.method == Method::Post,
        request.url@ == base_url(ctx.account_type@) + path,
        request.body matches Some(body) && body@ == payload,
        header_views(request.headers@) == copilot_header_views(
            ctx.copilot_token@,
            version,
            false,
            request_id,
        ),
{
}

/// A streamed answer is told to be one, and not to be kept.
pub proof fn law_streams_are_told(keep_alive: bool)
    ensures
        stream_header_views(keep_alive)[0] == ("Content-Type"@, "text/event-stream"@),
        stream_header_views(keep_alive)[1] == ("Cache-Control"@, "no-cache"@),
        keep_alive ==> stream_header_views(keep_alive).len() == 3 && stream_header_views(
            keep_alive,
        )[2] == ("Connection"@, "keep-alive"@),
        !keep_alive ==> stream_header_views(keep_alive).len() == 2,
{
}

// ---------------------------------------------------------------------------
// What comes back
// ---------------------------------------------------------------------------

/// A chat reply with a status of success passes. A prompt that is too long is the
/// caller's error, and so is a lost reply that is marked so; every other failure
/// is the service's, told by status and body.
pub proof fn law_chat_replies(reply: Reply, rest: Seq<char>)
    ensures
        match reply {
            Reply::Lost(message) => {
                &&& message@ == "400: "@ + rest ==> chat_refusal(reply) == Some((400u16, rest))
                &&& message@.len() < 4 || message@.take(4) != "400:"@ ==> chat_refusal(reply)
                    == Some((502u16, message@))
            },
            Reply::Came { status, status_text, body } => {
                let long = status == 413 || stands_in(body@, "exceeds limit"@) || stands_in(
                    body@,
                    "operation timed out"@,
                );
                &&& chat_refusal(reply) is None <==> status / 100 == 2
                &&& status / 100 != 2 && long ==> chat_refusal(reply) == Some(
                    (400u16, "prompt is too long for model"@),
                )
                &&& status / 100 != 2 && !long ==> chat_refusal(reply) == Some(
                    (502u16, failure("Copilot API error"@, status_text@, body@)),
                )
            },
        },
{
    reveal_strlit("400:");
    reveal_strlit("400: ");
    assert("400:"@.len() == 4);
    assert("400: "@.len() == 5);
    match reply {
        Reply::Lost(message) => {
            if message@ == "400: "@ + rest {
                assert(message@.subrange(0, 4) =~= "400:"@);
                assert(message@.skip(5) =~= rest);
            }
            if starts_with(message@, "400:"@) {
                assert(message@.take(4) =~= message@.subrange(0, 4));
            }
        },
        Reply::Came { status, status_text, body } => {
            lemma_stands_in(body@, "exceeds limit"@);
            lemma_stands_in(body@, "operation timed out"@);
        },
    }
}

proof fn lemma_stands_in(body: Seq<char>, pattern: Seq<char>)
    ensures
        stands_in(body, pattern) <==> occurs(body, pattern),
{
    if occurs(body, pattern) {
        let at = choose|at: int| #[trigger] crate::text::occurs_at(body, pattern, at);
        assert(body.skip(at).take(pattern.len() as int) =~= body.subrange(at, at + pattern.len()));
    }
    if stands_in(body, pattern) {
        let at = choose|at: int|
            0 <= at <= body.len() && (#[trigger] body.skip(at)).len() >= pattern.len()
                && body.skip(at).take(pattern.len() as int) == pattern;
        assert(body.subrange(at, at + pattern.len()) =~= body.skip(at).take(pattern.len() as int));
        assert(crate::text::occurs_at(body, pattern, at));
    }
}

/// Another reply passes exactly where its status tells success; a failure is
/// always the service's.
pub proof fn law_other_replies(reply: Reply, call: Seq<char>)
    ensures
        match reply {
            Reply::Lost(message) => relay_refusal(reply, call) == Some(message@),
            Reply::Came { status, status_text, body } => {
                &&& relay_refusal(reply, call) is None <==> status / 100 == 2
                &&& status / 100 != 2 ==> relay_refusal(reply, call) == Some(
                    call + " ("@ + status_text@ + "): "@ + body@,
                )
            },
        },
{
}

// ---------------------------------------------------------------------------
// What is noted
// ---------------------------------------------------------------------------

/// A served request notes the use of its account and of no other, and changes no
/// key and not the turn.
pub proof fn law_served_requests_are_noted(
    before: AppState,
    after: AppState,
    ctx: RequestContext,
    now: u64,
    i: int,
)
    requires
        served(before, after, ctx, now),
        0 <= i < before.store.accounts().len(),
    ensures
        after.store.accounts().len() == before.store.accounts().len(),
        after.store.keys() == before.store.keys() && after.store.turn() == before.store.turn(),
        after.config == before.config && after.models == before.models,
        after.last_request_timestamp == before.last_request_timestamp,
        same_but_use(before.store.accounts()[i], after.store.accounts()[i]),
        match ctx.account_id {
            Some(id) => after.store.accounts()[i].last_used == if is_first_of(
                before.store.accounts(),
                i,
                id@,
            ) {
                Some(now)
            } else {
                before.store.accounts()[i].last_used
            },
            None => after.store.accounts()[i] == before.store.accounts()[i],
        },
{
    let accounts = before.store.accounts();
    match ctx.account_id {
        Some(id) => {
            lemma_update_first_at(accounts, has_id(id@), used_at(now), i);
            let picked = has_id(id@)(accounts[i]) && (forall|j: int|
                0 <= j < i ==> !has_id(id@)(#[trigger] accounts[j]));
            if is_first_of(accounts, i, id@) {
                assert forall|j: int| 0 <= j < i implies !has_id(id@)(#[trigger] accounts[j]) by {}
                assert(picked);
            }
            if picked {
                assert forall|j: int| 0 <= j < i implies (#[trigger] accounts[j]).id@ != id@ by {
                    assert(!has_id(id@)(accounts[j]));
                }
                assert(is_first_of(accounts, i, id@));
            }
        },
        None => {},
    }
}

/// A chat request whose reply passes leaves one line in the log, last, with the
/// endpoint, the model and the short form of the account's id; one whose reply
/// fails leaves all as it was.
pub proof fn law_chats_are_logged(
    before: AppState,
    after: AppState,
    ctx: RequestContext,
    endpoint: Seq<char>,
    model: Seq<char>,
    reply: Reply,
    now: u64,
    time: Seq<char>,
    outcome: Result<(), ApiError>,
)
    requires
        chat_outcome(before, after, ctx, endpoint, model, reply, now, time, outcome),
        before.traffic_logs@.len() <= 500,
    ensures
        outcome is Ok <==> chat_refusal(reply) is None,
        outcome matches Err(error) ==> after == before && chat_refusal(reply) == Some(
            (error.status, error.message@),
        ),
        outcome is Ok ==> after.traffic_logs@.len() > 0 && {
            let line = after.traffic_logs@.last();
            &&& line.endpoint@ == endpoint
            &&& line.model@ == model
            &&& line.time@ == time
            &&& line.method@ == "POST"@
            &&& line.status == 200
            &&& line.tokens is None
            &&& ctx.account_id matches Some(id) ==> line.account@ == short_form(id@)
            &&& after.traffic_logs@.len() == if before.traffic_logs@.len() < 500 {
                (before.traffic_logs@.len() + 1) as nat
            } else {
                500
            }
            &&& served(before, after, ctx, now)
        },
{
    if outcome is Ok {
        let entry = choose|entry: TrafficLogEntry| #[trigger]
            is_log_line(entry, time, endpoint, model, ctx.account_id) && after.traffic_logs@
                == last_entries(before.traffic_logs@.push(entry));
        crate::state::law_log_holds_five_hundred(before.traffic_logs@, entry);
    }
}

/// A request of the responses format whose reply passes is noted and not logged;
/// one whose reply fails leaves all as it was.
pub proof fn law_responses_are_noted(
    before: AppState,
    after: AppState,
    ctx: RequestContext,
    reply: Reply,
    now: u64,
    outcome: Result<(), ApiError>,
)
    requires
        responses_outcome(before, after, ctx, reply, now, outcome),
    ensures
        after.traffic_logs == before.traffic_logs,
        outcome is Ok <==> relay_refusal(reply, "Responses API error"@) is None,
        outcome is Ok ==> served(before, after, ctx, now),
        outcome matches Err(error) ==> after == before && error.status == 502 && relay_refusal(
            reply,
            "Responses API error"@,
        ) == Some(error.message@),
{
}

/// What a header says is its text.
pub proof fn law_headers_are_read(header: &str)
    ensures
        text_view(Some(header)) == Some(header@),
        text_view(None) is None,
{
}

/// Every message about a lost reply can be told that is not marked as the caller's
/// error, and every one that is marked with a space behind; and a reply that fails
/// needs no id for the log, nor does one of an account with a plain id.
pub proof fn law_replies_can_be_told(
    message: Seq<char>,
    rest: Seq<char>,
    ctx: RequestContext,
    reply: Reply,
)
    ensures
        message.len() < 4 || message.take(4) != "400:"@ ==> is_marked_well(message),
        is_marked_well("400: "@ + rest),
        chat_refusal(reply) is Some ==> can_be_noted(ctx, reply),
        ctx.account_id is None ==> can_be_noted(ctx, reply),
        (ctx.account_id matches Some(id) && vstd::utf8::is_ascii_chars(id@)) ==> can_be_noted(
            ctx,
            reply,
        ),
{
    reveal_strlit("400:");
    reveal_strlit("400: ");
    assert("400:"@.len() == 4);
    assert("400: "@.len() == 5);
    assert(("400: "@ + rest)[4] == ' ');
    if starts_with(message, "400:"@) {
        assert(message.take(4) =~= message.subrange(0, 4));
    }
    match ctx.account_id {
        Some(id) => if vstd::utf8::is_ascii_chars(id@) {
            crate::routes::proxy::law_short_form_of_ascii(id@);
        },
        None => {},
    }
}

/// A clock that was set back holds no request up, whatever the limit, as long as
/// the limit is not longer than the clock can tell.
pub proof fn law_clock_set_back(seconds: u64, wait: bool, last: u64, now: u64)
    requires
        now < last,
        seconds <= (u64::MAX - (last - now)) / 1000,
    ensures
        rate_step(Some(seconds), wait, Some(last), now) == RateStep::Proceed,
{
}

/// A chat request is sent on as it is, and one of the messages format as what it
/// translates to; both are told of the model that was asked for, and streamed
/// exactly where a stream was asked for.
pub proof fn law_requests_are_sent_on(
    forward: Forward,
    ctx: RequestContext,
    version: Seq<char>,
    payload: Tree,
    request_id: Seq<char>,
)
    ensures
        sends_chat(forward, ctx, version, payload, request_id) ==> {
            &&& forward.request.body matches Some(body) && body@ == payload
            &&& forward.model@ == match payload.at("model"@) {
                Tree::Text(model) => model,
                _ => "-"@,
            }
        },
        sends_messages(forward, ctx, version, payload, request_id) ==> {
            &&& forward.request.body matches Some(body) && body@ == openai_request(payload)
            &&& forward.model@ == match payload.at("model"@) {
                Tree::Text(model) => model,
                _ => ""@,
            }
        },
        sends_chat(forward, ctx, version, payload, request_id) || sends_messages(
            forward,
            ctx,
            version,
            payload,
            request_id,
        ) ==> {
            &&& forward.stream == (payload.at("stream"@) == Tree::Bool(true))
            &&& forward.request.method == Method::Post
            &&& forward.request.url@ == base_url(ctx.account_type@) + "/chat/completions"@
        },
{
}

} // verus!
