//! The endpoints that callers use: who may call, which account serves, what is
//! sent on and what is answered.

use vstd::prelude::*;
use vstd::string::*;
use vstd::utf8::{decode_utf8, encode_utf8, encode_utf8_decode_utf8, is_char_boundary};

use crate::account_store::{
    counted_at, has_id, has_key, has_other_key, used_at, AccountStore, ApiKeyEntry, CopilotAccount,
};
use crate::clock::{
    in_millis, is_reading, is_time_of_day, millis_between, millis_of, millis_passed, now_ms,
    utc_time_of_day,
};
use crate::ids::{is_uuid, new_uuid};
use crate::json::{lemma_trees, text_or, trees, Json, Object, Tree};
use crate::routes::translate::{
    asks_for_stream, openai_request, translate_anthropic_to_openai, wants_stream,
};
use crate::routes::ApiError;
use crate::seqs::{first, lemma_first_dropped, lemma_first_pushed, update_first};
use crate::services::copilot::{
    chat_headers, check_chat_completions, check_embeddings, check_responses,
    create_chat_completions_with, create_embeddings, create_responses, failure, is_overflow,
};
use crate::services::github::get_copilot_usage;
use crate::services::{
    add_header, header_views, is_success_status, Method, ModelInfo, ServiceRequest,
};
use crate::state::{
    base_url, copilot_header_views, github_header_views, last_entries, AppState, RequestContext,
    TrafficLogEntry,
};
use crate::text::{chars_of, has_prefix, part_of, starts_with, strip_prefix, text_of};

verus! {

// ---------------------------------------------------------------------------
// Who may call
// ---------------------------------------------------------------------------

/// The key that a caller shows: what follows `Bearer `, or nothing.
pub open spec fn bearer_key(authorization: Option<Seq<char>>) -> Seq<char> {
    match authorization {
        Some(text) => if starts_with(text, "Bearer "@) {
            text.skip(7)
        } else {
            seq![]
        },
        None => seq![],
    }
}

/// A caller may go on: there are no keys, or the one shown is among them.
pub open spec fn is_authorized(keys: Seq<ApiKeyEntry>, authorization: Option<Seq<char>>) -> bool {
    keys.len() == 0 || (bearer_key(authorization).len() > 0 && first(
        keys,
        has_key(bearer_key(authorization)),
    ) is Some)
}

/// The keys after a request under the one shown.
pub open spec fn counted_keys(
    keys: Seq<ApiKeyEntry>,
    authorization: Option<Seq<char>>,
    now: u64,
) -> Seq<ApiKeyEntry> {
    update_first(keys, has_key(bearer_key(authorization)), counted_at(now))
}

/// The view of an optional text.
pub open spec fn text_view(text: Option<&str>) -> Option<Seq<char>> {
    match text {
        Some(t) => Some(t@),
        None => None,
    }
}

/// Lets a caller go on, or not; counts the request under the caller's key.
pub fn authorize_at(store: &mut AccountStore, authorization: Option<&str>, now: u64) -> (outcome:
    Result<(), ApiError>)
    ensures
        match outcome {
            Ok(()) => {
                &&& is_authorized(old(store).keys(), text_view(authorization))
                &&& final(store).keys() == counted_keys(
                    old(store).keys(),
                    text_view(authorization),
                    now,
                )
                &&& final(store).accounts() == old(store).accounts()
                &&& final(store).turn() == old(store).turn()
            },
            Err(error) => {
                &&& !is_authorized(old(store).keys(), text_view(authorization))
                &&& error.is(401, "Unauthorized"@)
                &&& *final(store) == *old(store)
            },
        },
{
    if !store.has_api_keys() {
        return Ok(());
    }
    proof {
        reveal_strlit("Bearer ");
    }
    let shown: Option<String> = match authorization {
        Some(text) => strip_prefix(text, "Bearer "),
        None => None,
    };
    match shown {
        Some(key) => {
            if key.as_str().is_empty() || store.validate_api_key(key.as_str()).is_none() {
                return Err(ApiError::unauthorized());
            }
            store.record_api_key_usage_at(key.as_str(), now);
            Ok(())
        },
        None => Err(ApiError::unauthorized()),
    }
}

// ---------------------------------------------------------------------------
// How often
// ---------------------------------------------------------------------------

/// What the rate limit asks of a request.
#[derive(Debug, Clone, Copy, PartialEq, Eq, Structural)]
pub enum RateStep {
    /// Go on.
    Proceed,
    /// Wait so many milliseconds first.
    Wait(u64),
    /// Be refused.
    Reject,
}

/// What the rate limit asks of a request at that time: to go on where there is
/// no limit, no earlier request, or as many whole seconds have passed since
/// that one as the limit asks for; else to wait for the seconds that are
/// missing, or to be refused.
pub open spec fn rate_step(limit: Option<u64>, wait: bool, last: Option<u64>, now: u64) -> RateStep {
    match (limit, last) {
        (Some(seconds), Some(earlier)) => {
            let passed = millis_between(earlier, now) / 1000;
            if passed >= seconds {
                RateStep::Proceed
            } else if wait {
                RateStep::Wait(in_millis((seconds - passed) as u64))
            } else {
                RateStep::Reject
            }
        },
        _ => RateStep::Proceed,
    }
}

/// What the rate limit asks of a request at that time.
pub fn rate_limit_step(limit: Option<u64>, wait: bool, last: Option<u64>, now: u64) -> (step:
    RateStep)
    ensures
        step == rate_step(limit, wait, last, now),
{
    match (limit, last) {
        (Some(seconds), Some(earlier)) => {
            let passed: u64 = millis_passed(earlier, now) / 1000;
            if passed >= seconds {
                RateStep::Proceed
            } else if wait {
                RateStep::Wait(millis_of(seconds - passed))
            } else {
                RateStep::Reject
            }
        },
        _ => RateStep::Proceed,
    }
}

// ---------------------------------------------------------------------------
// Which account
// ---------------------------------------------------------------------------

/// The context is that of the account.
pub open spec fn is_context_of(ctx: RequestContext, account: CopilotAccount) -> bool {
    &&& ctx.copilot_token@ == match account.copilot_token {
        Some(token) => token@,
        None => seq![],
    }
    &&& ctx.github_token == account.github_token
    &&& ctx.account_type == account.account_type
    &&& ctx.account_id == Some(account.id)
}

/// The account whose turn it is.
pub open spec fn account_at_turn(store: AccountStore) -> CopilotAccount {
    store.active()[store.turn() % store.active().len() as int]
}

/// The request goes to the account whose turn it is, and the turn passes on;
/// it is refused where no account is active.
pub open spec fn account_outcome(
    before: AccountStore,
    after: AccountStore,
    outcome: Result<RequestContext, ApiError>,
) -> bool {
    if before.active().len() == 0 {
        &&& outcome matches Err(error) && error.is(503, "No active accounts available"@)
        &&& after.turn() == before.turn()
    } else {
        &&& outcome matches Ok(ctx) && is_context_of(ctx, account_at_turn(before))
        &&& after.turn() == before.next_turn()
    }
}

/// The context of the account whose turn it is.
pub fn next_context(store: &mut AccountStore) -> (outcome: Result<RequestContext, ApiError>)
    ensures
        account_outcome(*old(store), *final(store), outcome),
        final(store).accounts() == old(store).accounts(),
        final(store).keys() == old(store).keys(),
{
    match store.get_next_rotation_account() {
        Some(account) => {
            let copilot_token: String = match account.copilot_token {
                Some(token) => token,
                None => String::new(),
            };
            Ok(
                RequestContext {
                    copilot_token,
                    github_token: account.github_token,
                    account_type: account.account_type,
                    account_id: Some(account.id),
                },
            )
        },
        None => Err(ApiError::new(503, "No active accounts available")),
    }
}

/// How far a request has come.
#[derive(Debug)]
pub enum ContextStep {
    /// It is served with this context.
    Ready(RequestContext),
    /// It waits so many milliseconds, and then goes on with `resume_context`.
    Wait(u64),
}

/// What a request comes to: a caller without a key is refused and nothing
/// changes; else the request counts under its key, and the rate limit lets it
/// go on to an account, has it wait, or refuses it.
pub open spec fn context_outcome(
    before: AppState,
    after: AppState,
    authorization: Option<Seq<char>>,
    key_time: u64,
    request_time: u64,
    outcome: Result<ContextStep, ApiError>,
) -> bool {
    if !is_authorized(before.store.keys(), authorization) {
        &&& outcome matches Err(error) && error.is(401, "Unauthorized"@)
        &&& after == before
    } else {
        &&& after.same_but_requests(before)
        &&& after.store.accounts() == before.store.accounts()
        &&& after.store.keys() == counted_keys(before.store.keys(), authorization, key_time)
        &&& match rate_step(
            before.config.rate_limit_seconds,
            before.config.rate_limit_wait,
            before.last_request_timestamp,
            request_time,
        ) {
            RateStep::Reject => {
                &&& outcome matches Err(error) && error.is(429, "Rate limit exceeded"@)
                &&& after.last_request_timestamp == before.last_request_timestamp
                &&& after.store.turn() == before.store.turn()
            },
            RateStep::Wait(millis) => {
                &&& outcome == Ok::<ContextStep, ApiError>(ContextStep::Wait(millis))
                &&& after.last_request_timestamp == before.last_request_timestamp
                &&& after.store.turn() == before.store.turn()
            },
            RateStep::Proceed => {
                &&& match outcome {
                    Ok(ContextStep::Ready(ctx)) => account_outcome(
                        before.store,
                        after.store,
                        Ok(ctx),
                    ),
                    Ok(ContextStep::Wait(_)) => false,
                    Err(error) => account_outcome(before.store, after.store, Err(error)),
                }
                &&& after.last_request_timestamp == if before.config.rate_limit_seconds is Some {
                    Some(request_time)
                } else {
                    before.last_request_timestamp
                }
            },
        }
    }
}

/// The context of a request with that header, at these times: that at which
/// its key is counted, and that which the rate limit goes by.
pub fn extract_context_at(
    state: &mut AppState,
    authorization: Option<&str>,
    key_time: u64,
    request_time: u64,
) -> (outcome: Result<ContextStep, ApiError>)
    ensures
        context_outcome(
            *old(state),
            *final(state),
            text_view(authorization),
            key_time,
            request_time,
            outcome,
        ),
{
    match authorize_at(&mut state.store, authorization, key_time) {
        Ok(()) => {},
        Err(error) => {
            return Err(error);
        },
    }
    match rate_limit_step(
        state.config.rate_limit_seconds,
        state.config.rate_limit_wait,
        state.last_request_timestamp,
        request_time,
    ) {
        RateStep::Reject => Err(ApiError::rate_limited()),
        RateStep::Wait(millis) => Ok(ContextStep::Wait(millis)),
        RateStep::Proceed => {
            if state.config.rate_limit_seconds.is_some() {
                state.last_request_timestamp = Some(request_time);
            }
            match next_context(&mut state.store) {
                Ok(ctx) => Ok(ContextStep::Ready(ctx)),
                Err(error) => Err(error),
            }
        },
    }
}

/// The context of a request with that header, now.
pub fn extract_context(state: &mut AppState, authorization: Option<&str>) -> (outcome: Result<
    ContextStep,
    ApiError,
>)
    ensures
        exists|key_time: u64, request_time: u64| #[trigger]
            is_reading(key_time) && #[trigger] is_reading(request_time) && context_outcome(
                *old(state),
                *final(state),
                text_view(authorization),
                key_time,
                request_time,
                outcome,
            ),
{
    let key_time: u64 = now_ms();
    let request_time: u64 = now_ms();
    extract_context_at(state, authorization, key_time, request_time)
}

/// What the rate limit asks of a request that has waited: to go on, or to wait
/// again where another has gone on meanwhile. It is not refused any more.
pub open spec fn resumed_step(state: AppState, now: u64) -> RateStep {
    rate_step(state.config.rate_limit_seconds, true, state.last_request_timestamp, now)
}

/// What a request comes to once it has waited: it goes on to an account and
/// its time is noted, or it waits again and nothing changes.
pub open spec fn resumed_outcome(
    before: AppState,
    after: AppState,
    now: u64,
    outcome: Result<ContextStep, ApiError>,
) -> bool {
    match resumed_step(before, now) {
        RateStep::Proceed => {
            &&& after.same_but_requests(before)
            &&& after.store.accounts() == before.store.accounts()
            &&& after.store.keys() == before.store.keys()
            &&& match outcome {
                Ok(ContextStep::Ready(ctx)) => account_outcome(
                    before.store,
                    after.store,
                    Ok(ctx),
                ),
                Ok(ContextStep::Wait(_)) => false,
                Err(error) => account_outcome(before.store, after.store, Err(error)),
            }
            &&& after.last_request_timestamp == Some(now)
        },
        RateStep::Wait(millis) => {
            &&& outcome == Ok::<ContextStep, ApiError>(ContextStep::Wait(millis))
            &&& after == before
        },
        RateStep::Reject => false,
    }
}

/// How far a request comes that has waited, at that time.
pub fn resume_context_at(state: &mut AppState, now: u64) -> (outcome: Result<
    ContextStep,
    ApiError,
>)
    ensures
        resumed_outcome(*old(state), *final(state), now, outcome),
{
    match rate_limit_step(
        state.config.rate_limit_seconds,
        true,
        state.last_request_timestamp,
        now,
    ) {
        RateStep::Wait(millis) => Ok(ContextStep::Wait(millis)),
        _ => {
            state.last_request_timestamp = Some(now);
            match next_context(&mut state.store) {
                Ok(ctx) => Ok(ContextStep::Ready(ctx)),
                Err(error) => Err(error),
            }
        },
    }
}

/// How far a request comes that has waited, now.
pub fn resume_context(state: &mut AppState) -> (outcome: Result<ContextStep, ApiError>)
    ensures
        exists|now: u64| #[trigger]
            is_reading(now) && resumed_outcome(*old(state), *final(state), now, outcome),
{
    let now: u64 = now_ms();
    resume_context_at(state, now)
}

// ---------------------------------------------------------------------------
// What is sent on
// ---------------------------------------------------------------------------

/// A chat request to send on, whether its reply is streamed, and the model
/// that the caller asked for.
pub struct Forward {
    pub request: ServiceRequest,
    pub stream: bool,
    pub model: String,
}

impl Forward {
    /// The payload is sent on to the account of the context.
    pub open spec fn is(
        self,
        ctx: RequestContext,
        vscode_version: Seq<char>,
        payload: Tree,
        request_id: Seq<char>,
        stream: bool,
        model: Seq<char>,
    ) -> bool {
        &&& self.request.is(
            Method::Post,
            base_url(ctx.account_type@) + "/chat/completions"@,
            chat_headers(ctx.copilot_token@, vscode_version, payload, request_id),
            Some(payload),
        )
        &&& self.stream == stream
        &&& self.model@ == model
    }
}

/// A chat request is sent on as it is.
pub open spec fn sends_chat(
    forward: Forward,
    ctx: RequestContext,
    vscode_version: Seq<char>,
    payload: Tree,
    request_id: Seq<char>,
) -> bool {
    forward.is(
        ctx,
        vscode_version,
        payload,
        request_id,
        wants_stream(payload),
        text_or(payload.at("model"@).as_text(), "-"@),
    )
}

/// A request of the messages format is sent on as a chat request.
pub open spec fn sends_messages(
    forward: Forward,
    ctx: RequestContext,
    vscode_version: Seq<char>,
    payload: Tree,
    request_id: Seq<char>,
) -> bool {
    forward.is(
        ctx,
        vscode_version,
        openai_request(payload),
        request_id,
        wants_stream(payload),
        text_or(payload.at("model"@).as_text(), ""@),
    )
}

/// What is sent on for a chat request, under that request id.
pub fn handle_chat_completions_with(
    state: &AppState,
    ctx: &RequestContext,
    payload: &Json,
    request_id: &str,
) -> (forward: Forward)
    ensures
        sends_chat(forward, *ctx, state.vscode_version@, payload@, request_id@),
        forward.is(
            *ctx,
            state.vscode_version@,
            payload@,
            request_id@,
            wants_stream(payload@),
            text_or(payload@.at("model"@).as_text(), "-"@),
        ),
{
    let request: ServiceRequest = create_chat_completions_with(
        ctx.copilot_token.as_str(),
        ctx.account_type.as_str(),
        state.vscode_version.as_str(),
        payload,
        request_id,
    );
    let model: String = payload.text_or("model", "-").to_owned();
    Forward { request, stream: asks_for_stream(payload), model }
}

/// What is sent on for a chat request.
pub fn handle_chat_completions(state: &AppState, ctx: &RequestContext, payload: &Json) -> (forward:
    Forward)
    ensures
        exists|request_id: Seq<char>| #[trigger]
            is_uuid(request_id) && sends_chat(
                forward,
                *ctx,
                state.vscode_version@,
                payload@,
                request_id,
            ),
        exists|request_id: Seq<char>| #[trigger]
            is_uuid(request_id) && forward.is(
                *ctx,
                state.vscode_version@,
                payload@,
                request_id,
                wants_stream(payload@),
                text_or(payload@.at("model"@).as_text(), "-"@),
            ),
{
    let request_id: String = new_uuid();
    handle_chat_completions_with(state, ctx, payload, request_id.as_str())
}

/// What is sent on for a request of the messages format, under that request
/// id.
pub fn handle_messages_with(
    state: &AppState,
    ctx: &RequestContext,
    payload: &Json,
    request_id: &str,
) -> (forward: Forward)
    ensures
        sends_messages(forward, *ctx, state.vscode_version@, payload@, request_id@),
        forward.is(
            *ctx,
            state.vscode_version@,
            openai_request(payload@),
            request_id@,
            wants_stream(payload@),
            text_or(payload@.at("model"@).as_text(), ""@),
        ),
{
    let translated: Json = translate_anthropic_to_openai(payload);
    let request: ServiceRequest = create_chat_completions_with(
        ctx.copilot_token.as_str(),
        ctx.account_type.as_str(),
        state.vscode_version.as_str(),
        &translated,
        request_id,
    );
    let model: String = payload.text_or("model", "").to_owned();
    Forward { request, stream: asks_for_stream(payload), model }
}

/// What is sent on for a request of the messages format.
pub fn handle_messages(state: &AppState, ctx: &RequestContext, payload: &Json) -> (forward: Forward)
    ensures
        exists|request_id: Seq<char>| #[trigger]
            is_uuid(request_id) && sends_messages(
                forward,
                *ctx,
                state.vscode_version@,
                payload@,
                request_id,
            ),
        exists|request_id: Seq<char>| #[trigger]
            is_uuid(request_id) && forward.is(
                *ctx,
                state.vscode_version@,
                openai_request(payload@),
                request_id,
                wants_stream(payload@),
                text_or(payload@.at("model"@).as_text(), ""@),
            ),
{
    let request_id: String = new_uuid();
    handle_messages_with(state, ctx, payload, request_id.as_str())
}

/// The payload is sent on as it is, to that path of the account's service.
pub open spec fn is_relayed(
    request: ServiceRequest,
    ctx: RequestContext,
    path: Seq<char>,
    vscode_version: Seq<char>,
    payload: Tree,
    request_id: Seq<char>,
) -> bool {
    request.is(
        Method::Post,
        base_url(ctx.account_type@) + path,
        copilot_header_views(ctx.copilot_token@, vscode_version, false, request_id),
        Some(payload),
    )
}

/// What is sent on for a request of the responses format, and whether its
/// reply is streamed.
pub fn handle_responses(state: &AppState, ctx: &RequestContext, payload: &Json) -> (forward: (
    ServiceRequest,
    bool,
))
    ensures
        exists|request_id: Seq<char>| #[trigger]
            is_uuid(request_id) && is_relayed(
                forward.0,
                *ctx,
                "/responses"@,
                state.vscode_version@,
                payload@,
                request_id,
            ),
        forward.1 == wants_stream(payload@),
{
    let request: ServiceRequest = create_responses(
        ctx.copilot_token.as_str(),
        ctx.account_type.as_str(),
        state.vscode_version.as_str(),
        payload,
    );
    (request, asks_for_stream(payload))
}

/// What is sent on for a request for embeddings.
pub fn handle_embeddings(state: &AppState, ctx: &RequestContext, payload: &Json) -> (request:
    ServiceRequest)
    ensures
        exists|request_id: Seq<char>| #[trigger]
            is_uuid(request_id) && is_relayed(
                request,
                *ctx,
                "/embeddings"@,
                state.vscode_version@,
                payload@,
                request_id,
            ),
{
    create_embeddings(
        ctx.copilot_token.as_str(),
        ctx.account_type.as_str(),
        state.vscode_version.as_str(),
        payload,
    )
}

// ---------------------------------------------------------------------------
// What comes back
// ---------------------------------------------------------------------------

/// The message has the mark of an error of the caller's, and a character of
/// one byte behind it.
pub open spec fn is_marked_well(message: Seq<char>) -> bool {
    starts_with(message, "400:"@) ==> message.len() > 4 && message[4] <= '\u{7f}'
}

/// The error that a failed chat request is answered with: one of the caller's
/// where the message is marked so, else one of the service's.
pub fn chat_error(message: &str) -> (error: ApiError)
    requires
        is_marked_well(message@),
    ensures
        if starts_with(message@, "400:"@) {
            error.is(400, message@.skip(5))
        } else {
            error.is(502, message@)
        },
{
    if has_prefix(message, "400:") {
        let chars: Vec<char> = chars_of(message);
        let rest: Vec<char> = part_of(&chars, 5, chars.len());
        proof {
            assert(rest@ =~= message@.skip(5));
        }
        ApiError::bad_request(text_of(&rest).as_str())
    } else {
        ApiError::new(502, message)
    }
}

/// The error that a request which the service failed is answered with.
pub fn gateway_error(message: &str) -> (error: ApiError)
    ensures
        error.is(502, message@),
{
    ApiError::new(502, message)
}

/// What came of a request that was sent on.
#[derive(Debug)]
pub enum Reply {
    /// No reply came; why is told.
    Lost(String),
    /// A reply came, with this status, the same in words, and this body. The
    /// body counts only where the status does not tell success.
    Came { status: u16, status_text: String, body: String },
}

/// The status and the message with which a chat request is refused after its
/// reply: a prompt over the model's limit is the caller's error, all else the
/// service's. None where the reply passes.
pub open spec fn chat_refusal(reply: Reply) -> Option<(u16, Seq<char>)> {
    match reply {
        Reply::Lost(message) => Some(
            if starts_with(message@, "400:"@) {
                (400, message@.skip(5))
            } else {
                (502, message@)
            },
        ),
        Reply::Came { status, status_text, body } => if is_success_status(status) {
            None
        } else if is_overflow(status, body@) {
            Some((400, "prompt is too long for model"@))
        } else {
            Some((502, failure("Copilot API error"@, status_text@, body@)))
        },
    }
}

/// The reason why no reply came is marked well, where it is marked.
pub open spec fn reply_is_marked_well(reply: Reply) -> bool {
    reply matches Reply::Lost(message) ==> is_marked_well(message@)
}

/// Whether the reply to a chat request passes, or what the caller is answered.
pub fn check_chat_reply(reply: &Reply) -> (outcome: Result<(), ApiError>)
    requires
        reply_is_marked_well(*reply),
    ensures
        match outcome {
            Ok(()) => chat_refusal(*reply) is None,
            Err(error) => chat_refusal(*reply) matches Some((status, message)) && error.is(
                status,
                message,
            ),
        },
{
    match reply {
        Reply::Lost(message) => Err(chat_error(message.as_str())),
        Reply::Came { status, status_text, body } => match check_chat_completions(
            *status,
            status_text.as_str(),
            body.as_str(),
        ) {
            Ok(()) => Ok(()),
            Err(message) => {
                proof {
                    lemma_marks(status_text@, body@);
                }
                Err(chat_error(message.as_str()))
            },
        },
    }
}

/// Of the messages about a reply, that about a long prompt has the mark of an
/// error of the caller's, and that about another failure has not.
proof fn lemma_marks(status_text: Seq<char>, body: Seq<char>)
    ensures
        starts_with("400: prompt is too long for model"@, "400:"@),
        is_marked_well("400: prompt is too long for model"@),
        "400: prompt is too long for model"@.skip(5) == "prompt is too long for model"@,
        !starts_with(failure("Copilot API error"@, status_text, body), "400:"@),
{
    reveal_strlit("400: prompt is too long for model");
    reveal_strlit("prompt is too long for model");
    reveal_strlit("400:");
    reveal_strlit("Copilot API error");
    let marked = "400: prompt is too long for model"@;
    assert(marked.skip(5) =~= "prompt is too long for model"@);
    assert(marked.subrange(0, 4) =~= "400:"@);
    let told = failure("Copilot API error"@, status_text, body);
    assert(told[0] == 'C');
    assert(told.subrange(0, 4)[0] == 'C');
    assert("400:"@[0] == '4');
}

/// The message with which another request is refused after its reply; always
/// as an error of the service's. None where the reply passes.
pub open spec fn relay_refusal(reply: Reply, call: Seq<char>) -> Option<Seq<char>> {
    match reply {
        Reply::Lost(message) => Some(message@),
        Reply::Came { status, status_text, body } => if is_success_status(status) {
            None
        } else {
            Some(failure(call, status_text@, body@))
        },
    }
}

/// Whether the reply to a responses request passes, or what the caller is
/// answered.
fn check_responses_reply(reply: &Reply) -> (outcome: Result<(), ApiError>)
    ensures
        match outcome {
            Ok(()) => relay_refusal(*reply, "Responses API error"@) is None,
            Err(error) => relay_refusal(*reply, "Responses API error"@) matches Some(message)
                && error.is(502, message),
        },
{
    match reply {
        Reply::Lost(message) => Err(gateway_error(message.as_str())),
        Reply::Came { status, status_text, body } => match check_responses(
            *status,
            status_text.as_str(),
            body.as_str(),
        ) {
            Ok(()) => Ok(()),
            Err(message) => Err(gateway_error(message.as_str())),
        },
    }
}

/// Whether the reply to a request for embeddings passes, or what the caller is
/// answered.
pub fn finish_embeddings(reply: &Reply) -> (outcome: Result<(), ApiError>)
    ensures
        match outcome {
            Ok(()) => relay_refusal(*reply, "Embeddings error"@) is None,
            Err(error) => relay_refusal(*reply, "Embeddings error"@) matches Some(message)
                && error.is(502, message),
        },
{
    match reply {
        Reply::Lost(message) => Err(gateway_error(message.as_str())),
        Reply::Came { status, status_text, body } => match check_embeddings(
            *status,
            status_text.as_str(),
            body.as_str(),
        ) {
            Ok(()) => Ok(()),
            Err(message) => Err(gateway_error(message.as_str())),
        },
    }
}

/// What the reading of a reply is answered with: its body, or an error of the
/// service's where it could not be had or read.
pub fn read_reply(read: Result<Json, String>) -> (outcome: Result<Json, ApiError>)
    ensures
        match read {
            Ok(body) => outcome matches Ok(told) && told@ == body@,
            Err(message) => outcome matches Err(error) && error.is(502, message@),
        },
{
    match read {
        Ok(body) => Ok(body),
        Err(message) => Err(gateway_error(message.as_str())),
    }
}

/// The headers of a streamed answer.
pub open spec fn stream_header_views(keep_alive: bool) -> Seq<(Seq<char>, Seq<char>)> {
    let headers = seq![
        ("Content-Type"@, "text/event-stream"@),
        ("Cache-Control"@, "no-cache"@),
    ];
    if keep_alive {
        headers.push(("Connection"@, "keep-alive"@))
    } else {
        headers
    }
}

/// The headers of a streamed answer.
pub fn stream_headers(keep_alive: bool) -> (headers: Vec<(String, String)>)
    ensures
        header_views(headers@) == stream_header_views(keep_alive),
{
    let mut headers: Vec<(String, String)> = Vec::new();
    add_header(&mut headers, "Content-Type", "text/event-stream");
    add_header(&mut headers, "Cache-Control", "no-cache");
    if keep_alive {
        add_header(&mut headers, "Connection", "keep-alive");
    }
    proof {
        assert(header_views(headers@) =~= stream_header_views(keep_alive));
    }
    headers
}

// ---------------------------------------------------------------------------
// What is noted
// ---------------------------------------------------------------------------

/// The length of the short form of an id: eight bytes, or all there are.
pub open spec fn short_length(id: Seq<char>) -> int {
    if encode_utf8(id).len() < 8 {
        encode_utf8(id).len() as int
    } else {
        8
    }
}

/// The id can be cut to its short form: no character lies across the cut.
pub open spec fn has_short_form(id: Seq<char>) -> bool {
    is_char_boundary(encode_utf8(id), short_length(id))
}

/// The short form of an id: its first eight bytes.
pub open spec fn short_form(id: Seq<char>) -> Seq<char> {
    decode_utf8(encode_utf8(id).take(short_length(id)))
}

/// The short form of an id.
pub fn short_id(id: &str) -> (short: String)
    requires
        has_short_form(id@),
    ensures
        short@ == short_form(id@),
{
    let count: usize = id.as_bytes().len();
    let cut: usize = if count < 8 {
        count
    } else {
        8
    };
    let (short, _rest): (&str, &str) = id.split_at(cut);
    proof {
        encode_utf8_decode_utf8(short@);
    }
    short.to_owned()
}

/// The line that a served request puts into the log.
pub open spec fn is_log_line(
    entry: TrafficLogEntry,
    time: Seq<char>,
    endpoint: Seq<char>,
    model: Seq<char>,
    account_id: Option<String>,
) -> bool {
    &&& entry.time@ == time
    &&& entry.method@ == "POST"@
    &&& entry.endpoint@ == endpoint
    &&& entry.model@ == model
    &&& entry.account@ == match account_id {
        Some(id) => short_form(id@),
        None => seq![],
    }
    &&& entry.status == 200
    &&& entry.tokens is None
}

/// The accounts after a use of the one of that id.
pub open spec fn used_accounts(
    accounts: Seq<CopilotAccount>,
    account_id: Option<String>,
    now: u64,
) -> Seq<CopilotAccount> {
    match account_id {
        Some(id) => update_first(accounts, has_id(id@), used_at(now)),
        None => accounts,
    }
}

/// The state after a request was served: its account was used, and nothing
/// else has changed but the log.
pub open spec fn served(before: AppState, after: AppState, ctx: RequestContext, now: u64) -> bool {
    &&& after.config == before.config
    &&& after.models == before.models
    &&& after.vscode_version == before.vscode_version
    &&& after.last_request_timestamp == before.last_request_timestamp
    &&& after.store.accounts() == used_accounts(before.store.accounts(), ctx.account_id, now)
    &&& after.store.keys() == before.store.keys()
    &&& after.store.turn() == before.store.turn()
}

/// Notes the use of the account of a context.
pub fn note_use_at(state: &mut AppState, ctx: &RequestContext, now: u64)
    ensures
        served(*old(state), *final(state), *ctx, now),
        final(state).traffic_logs == old(state).traffic_logs,
{
    if let Some(id) = &ctx.account_id {
        state.store.mark_account_used_at(id.as_str(), now);
    }
}

/// The state after a chat request to that endpoint was served.
pub open spec fn chat_served(
    before: AppState,
    after: AppState,
    ctx: RequestContext,
    endpoint: Seq<char>,
    model: Seq<char>,
    now: u64,
    time: Seq<char>,
) -> bool {
    &&& served(before, after, ctx, now)
    &&& exists|entry: TrafficLogEntry| #[trigger]
        is_log_line(entry, time, endpoint, model, ctx.account_id) && after.traffic_logs@
            == last_entries(before.traffic_logs@.push(entry))
}

/// Notes that a chat request was served: the use of its account, and a line in
/// the log.
pub fn note_chat_at(
    state: &mut AppState,
    ctx: &RequestContext,
    endpoint: &str,
    model: &str,
    now: u64,
    time: String,
)
    requires
        ctx.account_id matches Some(id) ==> has_short_form(id@),
    ensures
        chat_served(*old(state), *final(state), *ctx, endpoint@, model@, now, time@),
{
    note_use_at(state, ctx, now);
    let account: String = match &ctx.account_id {
        Some(id) => short_id(id.as_str()),
        None => String::new(),
    };
    let entry: TrafficLogEntry = TrafficLogEntry {
        time,
        method: "POST".to_owned(),
        endpoint: endpoint.to_owned(),
        model: model.to_owned(),
        account,
        status: 200,
        tokens: None,
    };
    proof {
        assert(is_log_line(entry, time@, endpoint@, model@, ctx.account_id));
    }
    state.add_traffic_log(entry);
}

/// Where the reply passes, the account's id has the short form that the log
/// shows.
pub open spec fn can_be_noted(ctx: RequestContext, reply: Reply) -> bool {
    chat_refusal(reply) is None ==> (ctx.account_id matches Some(id) ==> has_short_form(id@))
}

/// What a chat request to that endpoint comes to after its reply: where the
/// reply passes, the request counts as served; else it is refused, and nothing
/// changes.
pub open spec fn chat_outcome(
    before: AppState,
    after: AppState,
    ctx: RequestContext,
    endpoint: Seq<char>,
    model: Seq<char>,
    reply: Reply,
    now: u64,
    time: Seq<char>,
    outcome: Result<(), ApiError>,
) -> bool {
    match outcome {
        Ok(()) => {
            &&& chat_refusal(reply) is None
            &&& chat_served(before, after, ctx, endpoint, model, now, time)
        },
        Err(error) => {
            &&& chat_refusal(reply) matches Some((status, message)) && error.is(status, message)
            &&& after == before
        },
    }
}

/// Takes in the reply to a chat request to that endpoint, at that time.
pub fn finish_chat_at(
    state: &mut AppState,
    ctx: &RequestContext,
    endpoint: &str,
    model: &str,
    reply: &Reply,
    now: u64,
    time: String,
) -> (outcome: Result<(), ApiError>)
    requires
        can_be_noted(*ctx, *reply),
        reply_is_marked_well(*reply),
    ensures
        chat_outcome(
            *old(state),
            *final(state),
            *ctx,
            endpoint@,
            model@,
            *reply,
            now,
            time@,
            outcome,
        ),
{
    match check_chat_reply(reply) {
        Ok(()) => {
            note_chat_at(state, ctx, endpoint, model, now, time);
            Ok(())
        },
        Err(error) => Err(error),
    }
}

/// Takes in the reply to a chat request, now.
pub fn finish_chat_completions(
    state: &mut AppState,
    ctx: &RequestContext,
    model: &str,
    reply: &Reply,
) -> (outcome: Result<(), ApiError>)
    requires
        can_be_noted(*ctx, *reply),
        reply_is_marked_well(*reply),
    ensures
        exists|now: u64, time: Seq<char>| #[trigger]
            is_reading(now) && #[trigger] is_time_of_day(time) && chat_outcome(
                *old(state),
                *final(state),
                *ctx,
                "/v1/chat/completions"@,
                model@,
                *reply,
                now,
                time,
                outcome,
            ),
{
    let now: u64 = now_ms();
    let time: String = utc_time_of_day();
    finish_chat_at(state, ctx, "/v1/chat/completions", model, reply, now, time)
}

/// Takes in the reply to a request of the messages format, now.
pub fn finish_messages(state: &mut AppState, ctx: &RequestContext, model: &str, reply: &Reply) -> (
    outcome: Result<(), ApiError>)
    requires
        can_be_noted(*ctx, *reply),
        reply_is_marked_well(*reply),
    ensures
        exists|now: u64, time: Seq<char>| #[trigger]
            is_reading(now) && #[trigger] is_time_of_day(time) && chat_outcome(
                *old(state),
                *final(state),
                *ctx,
                "/v1/messages"@,
                model@,
                *reply,
                now,
                time,
                outcome,
            ),
{
    let now: u64 = now_ms();
    let time: String = utc_time_of_day();
    finish_chat_at(state, ctx, "/v1/messages", model, reply, now, time)
}

/// What a responses request comes to after its reply.
pub open spec fn responses_outcome(
    before: AppState,
    after: AppState,
    ctx: RequestContext,
    reply: Reply,
    now: u64,
    outcome: Result<(), ApiError>,
) -> bool {
    match outcome {
        Ok(()) => {
            &&& relay_refusal(reply, "Responses API error"@) is None
            &&& served(before, after, ctx, now)
            &&& after.traffic_logs == before.traffic_logs
        },
        Err(error) => {
            &&& relay_refusal(reply, "Responses API error"@) matches Some(message) && error.is(
                502,
                message,
            )
            &&& after == before
        },
    }
}

/// Takes in the reply to a request of the responses format, at that time.
pub fn finish_responses_at(
    state: &mut AppState,
    ctx: &RequestContext,
    reply: &Reply,
    now: u64,
) -> (outcome: Result<(), ApiError>)
    ensures
        responses_outcome(*old(state), *final(state), *ctx, *reply, now, outcome),
{
    match check_responses_reply(reply) {
        Ok(()) => {
            note_use_at(state, ctx, now);
            Ok(())
        },
        Err(error) => Err(error),
    }
}

/// Takes in the reply to a request of the responses format, now.
pub fn finish_responses(state: &mut AppState, ctx: &RequestContext, reply: &Reply) -> (outcome:
    Result<(), ApiError>)
    ensures
        exists|now: u64| #[trigger]
            is_reading(now) && responses_outcome(
                *old(state),
                *final(state),
                *ctx,
                *reply,
                now,
                outcome,
            ),
{
    let now: u64 = now_ms();
    finish_responses_at(state, ctx, reply, now)
}

// ---------------------------------------------------------------------------
// Models, token and usage
// ---------------------------------------------------------------------------

/// A model as callers are told of it.
pub open spec fn model_tree() -> spec_fn(ModelInfo) -> Tree {
    |model: ModelInfo|
        Tree::Object(
            map![
                "id"@ => Tree::Text(model.id@),
                "object"@ => Tree::Text("model"@),
                "created"@ => Tree::Int(0),
                "owned_by"@ => Tree::Text(model.vendor@),
                "display_name"@ => Tree::Text(model.name@),
            ],
        )
}

/// The models that callers are told of: those known, or none.
pub open spec fn model_trees(state: AppState) -> Seq<Tree> {
    match state.models {
        Some(models) => models.data@.map_values(model_tree()),
        None => seq![],
    }
}

fn describe_model(model: &ModelInfo) -> (described: Json)
    ensures
        described@ == model_tree()(*model),
{
    let mut members: Object = Object::new();
    members.insert("id", Json::text(model.id.as_str()));
    members.insert("object", Json::text("model"));
    members.insert("created", Json::unsigned(0));
    members.insert("owned_by", Json::text(model.vendor.as_str()));
    members.insert("display_name", Json::text(model.name.as_str()));
    Json::Object(members)
}

/// The list of models.
pub open spec fn models_tree(state: AppState) -> Tree {
    Tree::Object(
        map!["object"@ => Tree::Text("list"@), "data"@ => Tree::Array(model_trees(state))],
    )
}

fn list_models(state: &AppState) -> (list: Json)
    ensures
        list@ == models_tree(*state),
{
    let mut data: Vec<Json> = Vec::new();
    if let Some(models) = &state.models {
        let count: usize = models.data.len();
        let mut i: usize = 0;
        while i < count
            invariant
                i <= count,
                count == models.data.len(),
                data.len() == i,
                forall|j: int|
                    0 <= j < i ==> (#[trigger] data@[j])@ == model_tree()(models.data@[j]),
            decreases count - i,
        {
            data.push(describe_model(&models.data[i]));
            i = i + 1;
        }
    }
    proof {
        lemma_trees(data@);
        assert(trees(data@) =~= model_trees(*state));
    }
    let mut members: Object = Object::new();
    members.insert("object", Json::text("list"));
    members.insert("data", Json::Array(data));
    Json::Object(members)
}

/// What a caller who asks for the models comes to: 401 without a key, and
/// nothing changes; else the list, and the question counts under the key.
pub open spec fn models_outcome(
    before: AppState,
    after: AppState,
    authorization: Option<Seq<char>>,
    now: u64,
    outcome: Result<Json, ApiError>,
) -> bool {
    if is_authorized(before.store.keys(), authorization) {
        &&& outcome matches Ok(list) && list@ == models_tree(before)
        &&& after.same_but_requests(before)
        &&& after.last_request_timestamp == before.last_request_timestamp
        &&& after.store.accounts() == before.store.accounts()
        &&& after.store.turn() == before.store.turn()
        &&& after.store.keys() == counted_keys(before.store.keys(), authorization, now)
    } else {
        &&& outcome matches Err(error) && error.is(401, "Unauthorized"@)
        &&& after == before
    }
}

/// The list of models, for a caller with that header at that time.
pub fn handle_models_at(state: &mut AppState, authorization: Option<&str>, now: u64) -> (outcome:
    Result<Json, ApiError>)
    ensures
        models_outcome(*old(state), *final(state), text_view(authorization), now, outcome),
{
    match authorize_at(&mut state.store, authorization, now) {
        Ok(()) => Ok(list_models(state)),
        Err(error) => Err(error),
    }
}

/// The list of models, for a caller with that header, now.
pub fn handle_models(state: &mut AppState, authorization: Option<&str>) -> (outcome: Result<
    Json,
    ApiError,
>)
    ensures
        exists|now: u64| #[trigger]
            is_reading(now) && models_outcome(
                *old(state),
                *final(state),
                text_view(authorization),
                now,
                outcome,
            ),
{
    let now: u64 = now_ms();
    handle_models_at(state, authorization, now)
}

/// The token of the first active account, or nothing.
pub open spec fn first_token(store: AccountStore) -> Seq<char> {
    if store.active().len() > 0 {
        match store.active()[0].copilot_token {
            Some(token) => token@,
            None => seq![],
        }
    } else {
        seq![]
    }
}

/// The token of the first active account.
pub fn handle_token(state: &AppState) -> (answer: Json)
    ensures
        answer@ == Tree::Object(map!["token"@ => Tree::Text(first_token(state.store))]),
{
    let accounts: Vec<CopilotAccount> = state.store.get_active_accounts();
    let mut token: String = String::new();
    if accounts.len() > 0 {
        if let Some(told) = &accounts[0].copilot_token {
            token = told.clone();
        }
    }
    let mut members: Object = Object::new();
    members.insert("token", Json::Text(token));
    Json::Object(members)
}

/// The request for the usage of the first active account; an error where none
/// is active.
pub fn handle_usage(state: &AppState) -> (outcome: Result<ServiceRequest, ApiError>)
    ensures
        match outcome {
            Ok(request) => state.store.active().len() > 0 && request.is(
                Method::Get,
                "https://api.github.com/copilot_internal/user"@,
                github_header_views(state.store.active()[0].github_token@),
                None,
            ),
            Err(error) => state.store.active().len() == 0 && error.is(503, "No active accounts"@),
        },
{
    let accounts: Vec<CopilotAccount> = state.store.get_active_accounts();
    if accounts.len() > 0 {
        Ok(get_copilot_usage(accounts[0].github_token.as_str()))
    } else {
        Err(ApiError::new(503, "No active accounts"))
    }
}

// ---------------------------------------------------------------------------
// Laws
// ---------------------------------------------------------------------------

/// While there are keys, a caller who shows none is refused.
pub proof fn law_callers_need_a_key(keys: Seq<ApiKeyEntry>)
    requires
        keys.len() > 0,
    ensures
        !is_authorized(keys, None),
        !is_authorized(keys, Some(seq![])),
{
    reveal_strlit("Bearer ");
}

/// What follows `Bearer ` is the key shown.
proof fn lemma_shown_key(key: Seq<char>)
    ensures
        bearer_key(Some("Bearer "@ + key)) == key,
{
    reveal_strlit("Bearer ");
    let text = "Bearer "@ + key;
    assert(text.subrange(0, 7) =~= "Bearer "@);
    assert(text.skip(7) =~= key);
}

/// A caller who shows a stored key may go on.
pub proof fn law_stored_key_authorizes(keys: Seq<ApiKeyEntry>, entry: ApiKeyEntry)
    requires
        entry.key@.len() > 0,
    ensures
        is_authorized(keys.push(entry), Some("Bearer "@ + entry.key@)),
{
    lemma_shown_key(entry.key@);
    lemma_first_pushed(keys, entry, has_key(entry.key@));
}

/// A caller who shows a revoked key is refused, as long as there are other
/// keys. (Without any key left, callers need none.)
pub proof fn law_revoked_key_is_refused(keys: Seq<ApiKeyEntry>, key: Seq<char>)
    requires
        keys.filter(has_other_key(key)).len() > 0,
    ensures
        !is_authorized(keys.filter(has_other_key(key)), Some("Bearer "@ + key)),
{
    lemma_shown_key(key);
    lemma_first_dropped(keys, has_other_key(key), has_key(key));
}

/// Two requests that go on one after the other, each at once, are at least as
/// far apart as the limit asks for, and one that is not so far is not let on
/// at once.
pub proof fn law_requests_are_spaced(seconds: u64, wait: bool, earlier: u64, now: u64)
    requires
        earlier <= now,
    ensures
        rate_step(Some(seconds), wait, Some(earlier), now) == RateStep::Proceed <==> now - earlier
            >= seconds * 1000,
        !wait ==> (rate_step(Some(seconds), wait, Some(earlier), now) == RateStep::Reject <==> now
            - earlier < seconds * 1000),
{
}

/// A request that waits as long as it is told is then as far from the earlier
/// one as the limit asks for. (A limit whose milliseconds do not fit in a
/// `u64` is left out.)
pub proof fn law_waiting_is_enough(seconds: u64, earlier: u64, now: u64)
    requires
        earlier <= now,
        seconds * 1000 <= u64::MAX,
    ensures
        match rate_step(Some(seconds), true, Some(earlier), now) {
            RateStep::Wait(millis) => now + millis - earlier >= seconds * 1000 && now + millis
                - earlier < seconds * 1000 + 1000,
            RateStep::Proceed => now - earlier >= seconds * 1000,
            RateStep::Reject => false,
        },
{
}

/// A step in the life of a server, as far as the rate limit goes.
pub enum Step {
    /// A request came, with this header and at these times.
    Asked {
        authorization: Option<Seq<char>>,
        key_time: u64,
        now: u64,
        outcome: Result<ContextStep, ApiError>,
    },
    /// A request that had waited came again at this time.
    Resumed { now: u64, outcome: Result<ContextStep, ApiError> },
    /// Something else happened.
    Other,
}

impl Step {
    /// The step leads from one state to the other. What else happens changes
    /// neither the limit nor the time of the last request.
    pub open spec fn leads(self, before: AppState, after: AppState) -> bool {
        match self {
            Step::Asked { authorization, key_time, now, outcome } => context_outcome(
                before,
                after,
                authorization,
                key_time,
                now,
                outcome,
            ),
            Step::Resumed { now, outcome } => resumed_outcome(before, after, now, outcome),
            Step::Other => {
                &&& after.config == before.config
                &&& after.last_request_timestamp == before.last_request_timestamp
            },
        }
    }

    /// The time of the step.
    pub open spec fn time(self) -> Option<u64> {
        match self {
            Step::Asked { now, .. } => Some(now),
            Step::Resumed { now, .. } => Some(now),
            Step::Other => None,
        }
    }

    /// The request of the step passes the rate limit.
    pub open spec fn passes(self, before: AppState) -> bool {
        match self {
            Step::Asked { authorization, now, .. } => {
                &&& is_authorized(before.store.keys(), authorization)
                &&& rate_step(
                    before.config.rate_limit_seconds,
                    before.config.rate_limit_wait,
                    before.last_request_timestamp,
                    now,
                ) == RateStep::Proceed
            },
            Step::Resumed { now, .. } => resumed_step(before, now) == RateStep::Proceed,
            Step::Other => false,
        }
    }

    /// The request of the step is served.
    pub open spec fn is_served(self) -> bool {
        match self {
            Step::Asked { outcome, .. } => outcome matches Ok(ContextStep::Ready(_)),
            Step::Resumed { outcome, .. } => outcome matches Ok(ContextStep::Ready(_)),
            Step::Other => false,
        }
    }

    /// The request of the step is refused for the rate.
    pub open spec fn is_limited(self) -> bool {
        match self {
            Step::Asked { outcome, .. } => outcome matches Err(error) && error.status == 429,
            Step::Resumed { outcome, .. } => outcome matches Err(error) && error.status == 429,
            Step::Other => false,
        }
    }
}

/// The steps lead from each state to the next.
pub open spec fn is_run(states: Seq<AppState>, steps: Seq<Step>) -> bool {
    &&& states.len() == steps.len() + 1
    &&& forall|i: int|
        0 <= i < steps.len() ==> (#[trigger] steps[i]).leads(states[i], states[i + 1])
}

/// The clock never goes back.
pub open spec fn is_in_order(steps: Seq<Step>) -> bool {
    forall|i: int, j: int|
        0 <= i < j < steps.len() ==> match ((#[trigger] steps[i]).time(), (
        #[trigger] steps[j]).time()) {
            (Some(a), Some(b)) => a <= b,
            _ => true,
        }
}

/// After a request has passed at some time, the time of the last request is
/// that or a later one, and not later than the steps that came.
proof fn lemma_last_request(states: Seq<AppState>, steps: Seq<Step>, i: int, j: int)
    requires
        is_run(states, steps),
        is_in_order(steps),
        0 <= i < j <= steps.len(),
        states[0].config.rate_limit_seconds is Some,
        steps[i].passes(states[i]),
    ensures
        states[j].config == states[0].config,
        states[j].last_request_timestamp matches Some(last) && {
            &&& steps[i].time()->0 <= last
            &&& exists|k: int|
                0 <= k < j && #[trigger] steps[k].time() == Some(last)
        },
    decreases j,
{
    lemma_config_stays(states, steps, i);
    lemma_config_stays(states, steps, j);
    let step = steps[j - 1];
    assert(step.leads(states[j - 1], states[j - 1 + 1]));
    if j - 1 == i {
        assert(steps[i].time() == states[j].last_request_timestamp);
    } else {
        lemma_last_request(states, steps, i, j - 1);
        lemma_config_stays(states, steps, j - 1);
        let earlier = states[j - 1].last_request_timestamp->0;
        if states[j].last_request_timestamp == Some(earlier) {
            let k = choose|k: int| 0 <= k < j - 1 && #[trigger] steps[k].time() == Some(earlier);
            assert(0 <= k < j && steps[k].time() == Some(earlier));
        } else {
            assert(steps[j - 1].time() == states[j].last_request_timestamp);
            assert(steps[i].time() is Some);
        }
    }
}

proof fn lemma_config_stays(states: Seq<AppState>, steps: Seq<Step>, j: int)
    requires
        is_run(states, steps),
        0 <= j <= steps.len(),
    ensures
        states[j].config == states[0].config,
    decreases j,
{
    if j > 0 {
        lemma_config_stays(states, steps, j - 1);
        assert(steps[j - 1].leads(states[j - 1], states[j - 1 + 1]));
    }
}

/// One request passes per so many seconds, however many come or wait at once:
/// in every run of the server under a limit, with a clock that never goes back,
/// any two requests that pass are at least as far apart as the limit asks for.
pub proof fn law_passes_are_spaced(
    states: Seq<AppState>,
    steps: Seq<Step>,
    seconds: u64,
    i: int,
    j: int,
)
    requires
        is_run(states, steps),
        is_in_order(steps),
        states[0].config.rate_limit_seconds == Some(seconds),
        0 <= i < j < steps.len(),
        steps[i].passes(states[i]),
        steps[j].passes(states[j]),
    ensures
        steps[i].time() matches Some(earlier) && steps[j].time() matches Some(later) && later
            - earlier >= seconds * 1000,
{
    lemma_last_request(states, steps, i, j);
    let last = states[j].last_request_timestamp->0;
    let k = choose|k: int| 0 <= k < j && #[trigger] steps[k].time() == Some(last);
    assert(steps[k].time() == Some(last) && steps[j].time() is Some);
    let now = steps[j].time()->0;
    law_requests_are_spaced(seconds, true, last, now);
    law_requests_are_spaced(seconds, false, last, now);
}

/// A request is served only where it passes the rate limit. Where requests
/// wait, none is refused for the rate: it is told to wait, each time anew.
pub proof fn law_served_requests_pass(before: AppState, after: AppState, step: Step)
    requires
        step.leads(before, after),
    ensures
        step.is_served() ==> step.passes(before),
        before.config.rate_limit_wait ==> !step.is_limited(),
{
}

/// Without a limit, and for the first request, nothing is held up.
pub proof fn law_no_limit(wait: bool, last: Option<u64>, limit: Option<u64>, now: u64)
    ensures
        rate_step(None, wait, last, now) == RateStep::Proceed,
        rate_step(limit, wait, None, now) == RateStep::Proceed,
{
}

/// Where requests wait, none is refused for the rate.
pub proof fn law_waiting_requests_are_not_refused(
    limit: Option<u64>,
    last: Option<u64>,
    now: u64,
)
    ensures
        rate_step(limit, true, last, now) != RateStep::Reject,
{
}

/// The short form of an id in ASCII, as every id made here is, is its first
/// eight characters.
pub proof fn law_short_form_of_ascii(id: Seq<char>)
    requires
        vstd::utf8::is_ascii_chars(id),
    ensures
        has_short_form(id),
        short_form(id) == id.take(
            if id.len() < 8 {
                id.len() as int
            } else {
                8
            },
        ),
{
    let cut = if id.len() < 8 {
        id.len() as int
    } else {
        8
    };
    let bytes = encode_utf8(id);
    let short = id.take(cut);
    vstd::utf8::is_ascii_chars_encode_utf8(id);
    vstd::utf8::is_ascii_chars_encode_utf8(short);
    assert(encode_utf8(short) =~= bytes.take(cut));
    encode_utf8_decode_utf8(short);
    vstd::utf8::encode_utf8_valid_utf8(id);
    if cut < bytes.len() {
        vstd::utf8::is_char_boundary_iff_not_is_continuation_byte(bytes, cut);
        assert(id[cut] as u8 == bytes[cut]);
    } else {
        vstd::utf8::is_char_boundary_start_end_of_seq(bytes);
    }
}

} // verus!
