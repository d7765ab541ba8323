//! The Copilot API.

use vstd::prelude::*;
use vstd::string::*;

use crate::ids::{is_uuid, new_uuid};
use crate::json::{lemma_trees, trees, Json, Tree};
use crate::services::{
    add_header, body_tree, is_success, is_success_status, Method, ServiceRequest,
};
use crate::state::{
    base_url, copilot_base_url, copilot_header_views, copilot_headers_with, github_header_views,
    github_headers,
};
use crate::text::{contains, occurs, same_text};

verus! {

/// Token response from the Copilot API.
#[derive(Debug)]
pub struct CopilotTokenResponse {
    pub token: String,
    pub expires_at: u64,
    pub refresh_in: u64,
}

/// What is told of a reply that failed: the call, the status and the body.
pub open spec fn failure(call: Seq<char>, status_text: Seq<char>, body: Seq<char>) -> Seq<char> {
    call + " ("@ + status_text + "): "@ + body
}

fn failure_text(call: &str, status_text: &str, body: &str) -> (message: String)
    ensures
        message@ == failure(call@, status_text@, body@),
{
    let mut message: String = call.to_owned();
    message.append(" (");
    message.append(status_text);
    message.append("): ");
    message.append(body);
    message
}

/// A reply passes where its status tells success; else the failure is told.
pub open spec fn checked(
    outcome: Result<(), String>,
    call: Seq<char>,
    status: u16,
    status_text: Seq<char>,
    body: Seq<char>,
) -> bool {
    match outcome {
        Ok(()) => is_success_status(status),
        Err(message) => !is_success_status(status) && message@ == failure(call, status_text, body),
    }
}

/// The request for a Copilot token.
pub fn get_copilot_token(github_token: &str) -> (request: ServiceRequest)
    ensures
        request.is(
            Method::Get,
            "https://api.github.com/copilot_internal/v2/token"@,
            github_header_views(github_token@),
            None,
        ),
{
    ServiceRequest {
        method: Method::Get,
        url: "https://api.github.com/copilot_internal/v2/token".to_owned(),
        headers: github_headers(github_token),
        body: None,
    }
}

/// Whether the reply to a request for a token passes.
pub fn check_copilot_token(status: u16, status_text: &str, body: &str) -> (outcome: Result<
    (),
    String,
>)
    ensures
        checked(outcome, "Copilot token fetch failed"@, status, status_text@, body@),
{
    if is_success(status) {
        Ok(())
    } else {
        Err(failure_text("Copilot token fetch failed", status_text, body))
    }
}

/// A request to the Copilot API at that path, under that request id.
pub fn api_request(
    method: Method,
    path: &str,
    copilot_token: &str,
    account_type: &str,
    vscode_version: &str,
    vision: bool,
    body: Option<Json>,
    request_id: &str,
) -> (request: ServiceRequest)
    ensures
        request.is(
            method,
            base_url(account_type@) + path@,
            copilot_header_views(copilot_token@, vscode_version@, vision, request_id@),
            body_tree(body),
        ),
{
    let mut url: String = copilot_base_url(account_type).to_owned();
    url.append(path);
    ServiceRequest {
        method,
        url,
        headers: copilot_headers_with(copilot_token, vscode_version, vision, request_id),
        body,
    }
}

/// The request for the available models.
pub fn get_models(copilot_token: &str, account_type: &str, vscode_version: &str) -> (request:
    ServiceRequest)
    ensures
        exists|request_id: Seq<char>| #[trigger]
            is_uuid(request_id) && request.is(
                Method::Get,
                base_url(account_type@) + "/models"@,
                copilot_header_views(copilot_token@, vscode_version@, false, request_id),
                None,
            ),
{
    let request_id: String = new_uuid();
    api_request(
        Method::Get,
        "/models",
        copilot_token,
        account_type,
        vscode_version,
        false,
        None,
        request_id.as_str(),
    )
}

/// Whether the reply to a request for the models passes.
pub fn check_models(status: u16, status_text: &str, body: &str) -> (outcome: Result<(), String>)
    ensures
        checked(outcome, "Models fetch failed"@, status, status_text@, body@),
{
    if is_success(status) {
        Ok(())
    } else {
        Err(failure_text("Models fetch failed", status_text, body))
    }
}

/// A content part that is an image.
pub open spec fn is_image_part(part: Tree) -> bool {
    part.at("type"@) == Tree::Text("image_url"@)
}

/// A message that holds an image.
pub open spec fn holds_image(message: Tree) -> bool {
    match message.at("content"@).as_array() {
        Some(parts) => exists|i: int| 0 <= i < parts.len() && is_image_part(#[trigger] parts[i]),
        None => false,
    }
}

/// A payload with an image in one of its messages.
pub open spec fn has_vision(payload: Tree) -> bool {
    match payload.at("messages"@).as_array() {
        Some(messages) => exists|i: int|
            0 <= i < messages.len() && holds_image(#[trigger] messages[i]),
        None => false,
    }
}

/// A message by the assistant or a tool.
pub open spec fn is_agent_message(message: Tree) -> bool {
    message.at("role"@) == Tree::Text("assistant"@) || message.at("role"@) == Tree::Text("tool"@)
}

/// A payload of a conversation in which the assistant or a tool has spoken.
pub open spec fn has_agent(payload: Tree) -> bool {
    match payload.at("messages"@).as_array() {
        Some(messages) => exists|i: int|
            0 <= i < messages.len() && is_agent_message(#[trigger] messages[i]),
        None => false,
    }
}

fn message_holds_image(message: &Json) -> (holds: bool)
    ensures
        holds == holds_image(message@),
{
    if let Some(parts) = message.array_at("content") {
        proof {
            lemma_trees(parts@);
        }
        let count: usize = parts.len();
        let mut i: usize = 0;
        while i < count
            invariant
                i <= count,
                count == parts.len(),
                message@.at("content"@).as_array() == Some(trees(parts@)),
                trees(parts@).len() == count,
                forall|j: int|
                    0 <= j < count ==> #[trigger] trees(parts@)[j] == parts@[j]@,
                forall|j: int| 0 <= j < i ==> !is_image_part(#[trigger] parts@[j]@),
            decreases count - i,
        {
            if let Some(kind) = parts[i].text_at("type") {
                if same_text(kind, "image_url") {
                    proof {
                        let list = message@.at("content"@).as_array()->0;
                        assert(is_image_part(list[i as int]));
                        assert(holds_image(message@));
                    }
                    return true;
                }
            }
            i = i + 1;
        }
        proof {
            assert forall|j: int| 0 <= j < count implies !is_image_part(
                #[trigger] trees(parts@)[j],
            ) by {
                assert(!is_image_part(parts@[j]@));
            }
        }
    }
    false
}

/// Whether a payload holds an image.
pub fn payload_has_vision(payload: &Json) -> (has: bool)
    ensures
        has == has_vision(payload@),
{
    if let Some(messages) = payload.array_at("messages") {
        proof {
            lemma_trees(messages@);
        }
        let count: usize = messages.len();
        let mut i: usize = 0;
        while i < count
            invariant
                i <= count,
                count == messages.len(),
                payload@.at("messages"@).as_array() == Some(trees(messages@)),
                trees(messages@).len() == count,
                forall|j: int|
                    0 <= j < count ==> #[trigger] trees(messages@)[j] == messages@[j]@,
                forall|j: int| 0 <= j < i ==> !holds_image(#[trigger] messages@[j]@),
            decreases count - i,
        {
            if message_holds_image(&messages[i]) {
                proof {
                    let list = payload@.at("messages"@).as_array()->0;
                    assert(holds_image(list[i as int]));
                    assert(has_vision(payload@));
                }
                return true;
            }
            i = i + 1;
        }
        proof {
            assert forall|j: int| 0 <= j < count implies !holds_image(
                #[trigger] trees(messages@)[j],
            ) by {
                assert(!holds_image(messages@[j]@));
            }
        }
    }
    false
}

/// Whether the assistant or a tool has spoken in a payload.
pub fn payload_has_agent(payload: &Json) -> (has: bool)
    ensures
        has == has_agent(payload@),
{
    if let Some(messages) = payload.array_at("messages") {
        proof {
            lemma_trees(messages@);
        }
        let count: usize = messages.len();
        let mut i: usize = 0;
        while i < count
            invariant
                i <= count,
                count == messages.len(),
                payload@.at("messages"@).as_array() == Some(trees(messages@)),
                trees(messages@).len() == count,
                forall|j: int|
                    0 <= j < count ==> #[trigger] trees(messages@)[j] == messages@[j]@,
                forall|j: int| 0 <= j < i ==> !is_agent_message(#[trigger] messages@[j]@),
            decreases count - i,
        {
            if let Some(role) = messages[i].text_at("role") {
                if same_text(role, "assistant") || same_text(role, "tool") {
                    proof {
                        let list = payload@.at("messages"@).as_array()->0;
                        assert(is_agent_message(list[i as int]));
                        assert(has_agent(payload@));
                    }
                    return true;
                }
            }
            i = i + 1;
        }
        proof {
            assert forall|j: int| 0 <= j < count implies !is_agent_message(
                #[trigger] trees(messages@)[j],
            ) by {
                assert(!is_agent_message(messages@[j]@));
            }
        }
    }
    false
}

/// The headers of a chat request.
pub open spec fn chat_headers(
    copilot_token: Seq<char>,
    vscode_version: Seq<char>,
    payload: Tree,
    request_id: Seq<char>,
) -> Seq<(Seq<char>, Seq<char>)> {
    let headers = copilot_header_views(
        copilot_token,
        vscode_version,
        has_vision(payload),
        request_id,
    );
    if has_agent(payload) {
        headers.push(("X-Initiator"@, "agent"@))
    } else {
        headers
    }
}

/// The chat request, under that request id.
pub fn create_chat_completions_with(
    copilot_token: &str,
    account_type: &str,
    vscode_version: &str,
    payload: &Json,
    request_id: &str,
) -> (request: ServiceRequest)
    ensures
        request.is(
            Method::Post,
            base_url(account_type@) + "/chat/completions"@,
            chat_headers(copilot_token@, vscode_version@, payload@, request_id@),
            Some(payload@),
        ),
{
    let vision: bool = payload_has_vision(payload);
    let mut request: ServiceRequest = api_request(
        Method::Post,
        "/chat/completions",
        copilot_token,
        account_type,
        vscode_version,
        vision,
        Some(payload.copy()),
        request_id,
    );
    if payload_has_agent(payload) {
        add_header(&mut request.headers, "X-Initiator", "agent");
    }
    request
}

/// The chat request, under a random request id.
pub fn create_chat_completions(
    copilot_token: &str,
    account_type: &str,
    vscode_version: &str,
    payload: &Json,
) -> (request: ServiceRequest)
    ensures
        exists|request_id: Seq<char>| #[trigger]
            is_uuid(request_id) && request.is(
                Method::Post,
                base_url(account_type@) + "/chat/completions"@,
                chat_headers(copilot_token@, vscode_version@, payload@, request_id),
                Some(payload@),
            ),
{
    let request_id: String = new_uuid();
    create_chat_completions_with(
        copilot_token,
        account_type,
        vscode_version,
        payload,
        request_id.as_str(),
    )
}

/// A failed chat reply that tells of a prompt over the model's limit.
pub open spec fn is_overflow(status: u16, body: Seq<char>) -> bool {
    status == 413 || occurs(body, "exceeds limit"@) || occurs(body, "operation timed out"@)
}

/// Whether the reply to a chat request passes.
pub fn check_chat_completions(status: u16, status_text: &str, body: &str) -> (outcome: Result<
    (),
    String,
>)
    ensures
        match outcome {
            Ok(()) => is_success_status(status),
            Err(message) => !is_success_status(status) && message@ == if is_overflow(
                status,
                body@,
            ) {
                "400: prompt is too long for model"@
            } else {
                failure("Copilot API error"@, status_text@, body@)
            },
        },
{
    if is_success(status) {
        Ok(())
    } else if status == 413 || contains(body, "exceeds limit") || contains(
        body,
        "operation timed out",
    ) {
        Err("400: prompt is too long for model".to_owned())
    } else {
        Err(failure_text("Copilot API error", status_text, body))
    }
}

/// The embeddings request, under a random request id.
pub fn create_embeddings(
    copilot_token: &str,
    account_type: &str,
    vscode_version: &str,
    payload: &Json,
) -> (request: ServiceRequest)
    ensures
        exists|request_id: Seq<char>| #[trigger]
            is_uuid(request_id) && request.is(
                Method::Post,
                base_url(account_type@) + "/embeddings"@,
                copilot_header_views(copilot_token@, vscode_version@, false, request_id),
                Some(payload@),
            ),
{
    let request_id: String = new_uuid();
    api_request(
        Method::Post,
        "/embeddings",
        copilot_token,
        account_type,
        vscode_version,
        false,
        Some(payload.copy()),
        request_id.as_str(),
    )
}

/// Whether the reply to an embeddings request passes.
pub fn check_embeddings(status: u16, status_text: &str, body: &str) -> (outcome: Result<(), String>)
    ensures
        checked(outcome, "Embeddings error"@, status, status_text@, body@),
{
    if is_success(status) {
        Ok(())
    } else {
        Err(failure_text("Embeddings error", status_text, body))
    }
}

/// The responses request, under a random request id.
pub fn create_responses(
    copilot_token: &str,
    account_type: &str,
    vscode_version: &str,
    payload: &Json,
) -> (request: ServiceRequest)
    ensures
        exists|request_id: Seq<char>| #[trigger]
            is_uuid(request_id) && request.is(
                Method::Post,
                base_url(account_type@) + "/responses"@,
                copilot_header_views(copilot_token@, vscode_version@, false, request_id),
                Some(payload@),
            ),
{
    let request_id: String = new_uuid();
    api_request(
        Method::Post,
        "/responses",
        copilot_token,
        account_type,
        vscode_version,
        false,
        Some(payload.copy()),
        request_id.as_str(),
    )
}

/// Whether the reply to a responses request passes.
pub fn check_responses(status: u16, status_text: &str, body: &str) -> (outcome: Result<(), String>)
    ensures
        checked(outcome, "Responses API error"@, status, status_text@, body@),
{
    if is_success(status) {
        Ok(())
    } else {
        Err(failure_text("Responses API error", status_text, body))
    }
}

// ---------------------------------------------------------------------------
// Laws
// ---------------------------------------------------------------------------

/// A failure is told by the call, then the status, then the body.
pub proof fn law_failures_are_told(call: Seq<char>, status_text: Seq<char>, body: Seq<char>)
    ensures
        failure(call, status_text, body) == call + (" ("@ + (status_text + ("): "@ + body))),
{
    assert(failure(call, status_text, body) =~= call + (" ("@ + (status_text + ("): "@ + body))));
}

/// A reply passes exactly where its status tells success.
pub proof fn law_replies_are_checked(
    outcome: Result<(), String>,
    call: Seq<char>,
    status: u16,
    status_text: Seq<char>,
    body: Seq<char>,
)
    requires
        checked(outcome, call, status, status_text, body),
    ensures
        outcome is Ok <==> status / 100 == 2,
        outcome matches Err(message) ==> message@ == call + " ("@ + status_text + "): "@ + body,
{
}

/// A prompt is told to be too long where the status says so, or where the body
/// says so in one of two ways, wherever it does; else it is not.
pub proof fn law_long_prompts_are_found(status: u16, a: Seq<char>, b: Seq<char>, body: Seq<char>)
    ensures
        is_overflow(413, body),
        is_overflow(status, a + "exceeds limit"@ + b),
        is_overflow(status, a + "operation timed out"@ + b),
        is_overflow(status, body) ==> status == 413 || stands_in(body, "exceeds limit"@)
            || stands_in(body, "operation timed out"@),
{
    crate::text::law_patterns_are_found(seq![], a, "exceeds limit"@, b);
    crate::text::law_patterns_are_found(seq![], a, "operation timed out"@, b);
    if occurs(body, "exceeds limit"@) {
        lemma_found_behind(body, "exceeds limit"@);
    } else if occurs(body, "operation timed out"@) {
        lemma_found_behind(body, "operation timed out"@);
    }
}

/// The body holds the pattern from some place on.
pub open spec fn stands_in(body: Seq<char>, pattern: Seq<char>) -> bool {
    exists|at: int|
        0 <= at <= body.len() && (#[trigger] body.skip(at)).len() >= pattern.len() && body.skip(
            at,
        ).take(pattern.len() as int) == pattern
}

proof fn lemma_found_behind(body: Seq<char>, pattern: Seq<char>)
    requires
        occurs(body, pattern),
    ensures
        stands_in(body, pattern),
{
    let at = choose|at: int| #[trigger] crate::text::occurs_at(body, pattern, at);
    assert(body.skip(at).take(pattern.len() as int) =~= body.subrange(at, at + pattern.len()));
}

/// A part of one of the messages is an image.
pub open spec fn are_pictured(messages: Seq<Tree>) -> bool {
    exists|i: int, k: int|
        0 <= i < messages.len() && (#[trigger] messages[i].at("content"@).item(k)).at("type"@)
            == Tree::Text("image_url"@)
}

/// One of the messages is by the assistant or a tool.
pub open spec fn are_spoken_to(messages: Seq<Tree>) -> bool {
    exists|i: int|
        0 <= i < messages.len() && ((#[trigger] messages[i]).at("role"@) == Tree::Text(
            "assistant"@,
        ) || messages[i].at("role"@) == Tree::Text("tool"@))
}

/// A chat request tells of an image exactly where a part of one of its messages
/// is an image, and of an agent exactly where one of its messages is by the
/// assistant or a tool; its other headers are those of every request.
pub proof fn law_chat_headers(
    token: Seq<char>,
    version: Seq<char>,
    payload: Tree,
    messages: Seq<Tree>,
    request_id: Seq<char>,
)
    requires
        payload.at("messages"@) == Tree::Array(messages),
    ensures
        are_spoken_to(messages) ==> chat_headers(token, version, payload, request_id)
            == copilot_header_views(token, version, are_pictured(messages), request_id).push(
            ("X-Initiator"@, "agent"@),
        ),
        !are_spoken_to(messages) ==> chat_headers(token, version, payload, request_id)
            == copilot_header_views(token, version, are_pictured(messages), request_id),
{
    if has_vision(payload) {
        let i = choose|i: int| 0 <= i < messages.len() && holds_image(#[trigger] messages[i]);
        let parts = messages[i].at("content"@).as_array()->0;
        let k = choose|k: int| 0 <= k < parts.len() && is_image_part(#[trigger] parts[k]);
        assert(messages[i].at("content"@).item(k) == parts[k]);
        assert(are_pictured(messages));
    }
    if are_pictured(messages) {
        let (i, k) = choose|i: int, k: int|
            0 <= i < messages.len() && (#[trigger] messages[i].at("content"@).item(k)).at("type"@)
                == Tree::Text("image_url"@);
        let parts = messages[i].at("content"@).as_array()->0;
        assert(is_image_part(parts[k]));
        let list = payload.at("messages"@).as_array()->0;
        assert(holds_image(list[i]));
    }
    if are_spoken_to(messages) {
        let i = choose|i: int|
            0 <= i < messages.len() && ((#[trigger] messages[i]).at("role"@) == Tree::Text(
                "assistant"@,
            ) || messages[i].at("role"@) == Tree::Text("tool"@));
        let list = payload.at("messages"@).as_array()->0;
        assert(is_agent_message(list[i]));
    }
    if has_agent(payload) {
        let i = choose|i: int| 0 <= i < messages.len() && is_agent_message(#[trigger] messages[i]);
        assert(are_spoken_to(messages));
    }
}

/// A payload without messages tells of neither an image nor an agent.
pub proof fn law_plain_payloads(
    token: Seq<char>,
    version: Seq<char>,
    payload: Tree,
    request_id: Seq<char>,
)
    requires
        !(payload.at("messages"@) is Array),
    ensures
        chat_headers(token, version, payload, request_id) == copilot_header_views(
            token,
            version,
            false,
            request_id,
        ),
{
}

} // verus!
