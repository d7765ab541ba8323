//! The GitHub API.

use vstd::prelude::*;
use vstd::string::*;

use crate::json::{text_or, Json, Object, Tree};
use crate::services::{
    add_header, header_views, is_success, is_success_status, Method, ServiceRequest,
};
use crate::state::{github_header_views, github_headers};
use crate::text::same_text;

verus! {

/// Device code response.
#[derive(Debug)]
pub struct DeviceCodeResponse {
    pub device_code: String,
    pub user_code: String,
    pub verification_uri: String,
    pub expires_in: u64,
    pub interval: u64,
}

/// GitHub user info.
#[derive(Debug)]
pub struct GitHubUser {
    pub login: String,
}

/// The id under which the proxy asks for authorization.
pub open spec fn client_id() -> Seq<char> {
    "Iv1.b507a08c87ecfe98"@
}

/// The headers of a request of the device flow.
pub open spec fn device_flow_headers() -> Seq<(Seq<char>, Seq<char>)> {
    seq![("Accept"@, "application/json"@), ("Content-Type"@, "application/json"@)]
}

fn make_device_flow_headers() -> (headers: Vec<(String, String)>)
    ensures
        header_views(headers@) == device_flow_headers(),
{
    let mut headers: Vec<(String, String)> = Vec::new();
    add_header(&mut headers, "Accept", "application/json");
    add_header(&mut headers, "Content-Type", "application/json");
    proof {
        assert(header_views(headers@) =~= device_flow_headers());
    }
    headers
}

/// The request that starts the device flow.
pub fn get_device_code() -> (request: ServiceRequest)
    ensures
        request.is(
            Method::Post,
            "https://github.com/login/device/code"@,
            device_flow_headers(),
            Some(
                Tree::Object(
                    map![
                        "client_id"@ => Tree::Text(client_id()),
                        "scope"@ => Tree::Text("read:user"@),
                    ],
                ),
            ),
        ),
{
    let mut body: Object = Object::new();
    body.insert("client_id", Json::text("Iv1.b507a08c87ecfe98"));
    body.insert("scope", Json::text("read:user"));
    ServiceRequest {
        method: Method::Post,
        url: "https://github.com/login/device/code".to_owned(),
        headers: make_device_flow_headers(),
        body: Some(Json::Object(body)),
    }
}

/// Whether the reply that starts the device flow passes.
pub fn check_device_code(status: u16, body: &str) -> (outcome: Result<(), String>)
    ensures
        match outcome {
            Ok(()) => is_success_status(status),
            Err(message) => !is_success_status(status) && message@
                == "Device code request failed: "@ + body@,
        },
{
    if is_success(status) {
        Ok(())
    } else {
        let mut message: String = "Device code request failed: ".to_owned();
        message.append(body);
        Err(message)
    }
}

/// The seconds to wait before each poll: one more than the service asks for,
/// with the wrap of a `u64`.
pub fn poll_interval(interval: u64) -> (seconds: u64)
    ensures
        seconds == if interval == u64::MAX {
            0
        } else {
            interval + 1
        },
{
    interval.wrapping_add(1)
}

/// The request that polls for the access token.
pub fn poll_request(device_code: &str) -> (request: ServiceRequest)
    ensures
        request.is(
            Method::Post,
            "https://github.com/login/oauth/access_token"@,
            device_flow_headers(),
            Some(
                Tree::Object(
                    map![
                        "client_id"@ => Tree::Text(client_id()),
                        "device_code"@ => Tree::Text(device_code@),
                        "grant_type"@ => Tree::Text(
                            "urn:ietf:params:oauth:grant-type:device_code"@,
                        ),
                    ],
                ),
            ),
        ),
{
    let mut body: Object = Object::new();
    body.insert("client_id", Json::text("Iv1.b507a08c87ecfe98"));
    body.insert("device_code", Json::text(device_code));
    body.insert("grant_type", Json::text("urn:ietf:params:oauth:grant-type:device_code"));
    ServiceRequest {
        method: Method::Post,
        url: "https://github.com/login/oauth/access_token".to_owned(),
        headers: make_device_flow_headers(),
        body: Some(Json::Object(body)),
    }
}

/// What follows the reply to a poll.
#[derive(Debug)]
pub enum PollStep {
    /// The user has authorized: this is the token.
    Token(String),
    /// Wait so many seconds more, then poll again.
    Again(u64),
    /// The flow has failed.
    Failed(String),
}

/// The error that a reply tells.
pub open spec fn told_error(reply: Tree) -> Seq<char> {
    text_or(reply.at("error"@).as_text(), ""@)
}

/// What follows the reply to a poll, as the reply tells it.
pub open spec fn poll_outcome(reply: Tree, step: PollStep) -> bool {
    match reply.at("access_token"@).as_text() {
        Some(token) => step matches PollStep::Token(t) && t@ == token,
        None => if told_error(reply) == "slow_down"@ {
            step == PollStep::Again(5)
        } else if told_error(reply) == "expired_token"@ {
            step matches PollStep::Failed(message) && message@ == "Device code expired"@
        } else if told_error(reply) == "access_denied"@ {
            step matches PollStep::Failed(message) && message@ == "Access denied by user"@
        } else {
            step == PollStep::Again(0)
        },
    }
}

/// What follows the reply to a poll: a token ends the flow, and so do the two
/// final errors; all else is polled again, later where the service asks so.
pub fn poll_access_token(reply: &Json) -> (step: PollStep)
    ensures
        poll_outcome(reply@, step),
        match reply@.at("access_token"@).as_text() {
            Some(token) => step matches PollStep::Token(t) && t@ == token,
            None => if told_error(reply@) == "slow_down"@ {
                step == PollStep::Again(5)
            } else if told_error(reply@) == "expired_token"@ {
                step matches PollStep::Failed(message) && message@ == "Device code expired"@
            } else if told_error(reply@) == "access_denied"@ {
                step matches PollStep::Failed(message) && message@ == "Access denied by user"@
            } else {
                step == PollStep::Again(0)
            },
        },
{
    if let Some(token) = reply.text_at("access_token") {
        return PollStep::Token(token.to_owned());
    }
    let error: &str = reply.text_or("error", "");
    if same_text(error, "slow_down") {
        PollStep::Again(5)
    } else if same_text(error, "expired_token") {
        PollStep::Failed("Device code expired".to_owned())
    } else if same_text(error, "access_denied") {
        PollStep::Failed("Access denied by user".to_owned())
    } else {
        PollStep::Again(0)
    }
}

/// The request for the user of a token.
pub fn get_github_user(github_token: &str) -> (request: ServiceRequest)
    ensures
        request.is(
            Method::Get,
            "https://api.github.com/user"@,
            github_header_views(github_token@),
            None,
        ),
{
    ServiceRequest {
        method: Method::Get,
        url: "https://api.github.com/user".to_owned(),
        headers: github_headers(github_token),
        body: None,
    }
}

/// Whether the reply to a request for the user passes.
pub fn check_github_user(status: u16) -> (outcome: Result<(), String>)
    ensures
        match outcome {
            Ok(()) => is_success_status(status),
            Err(message) => !is_success_status(status) && message@
                == "Failed to fetch GitHub user"@,
        },
{
    if is_success(status) {
        Ok(())
    } else {
        Err("Failed to fetch GitHub user".to_owned())
    }
}

/// The request for the usage of an account.
pub fn get_copilot_usage(github_token: &str) -> (request: ServiceRequest)
    ensures
        request.is(
            Method::Get,
            "https://api.github.com/copilot_internal/user"@,
            github_header_views(github_token@),
            None,
        ),
{
    ServiceRequest {
        method: Method::Get,
        url: "https://api.github.com/copilot_internal/user".to_owned(),
        headers: github_headers(github_token),
        body: None,
    }
}

/// Whether the reply to a request for the usage passes.
pub fn check_copilot_usage(status: u16) -> (outcome: Result<(), String>)
    ensures
        match outcome {
            Ok(()) => is_success_status(status),
            Err(message) => !is_success_status(status) && message@
                == "Failed to fetch Copilot usage"@,
        },
{
    if is_success(status) {
        Ok(())
    } else {
        Err("Failed to fetch Copilot usage".to_owned())
    }
}

/// The proxy asks for authorization under one id, as JSON; an error that a reply
/// does not tell is none.
pub proof fn law_device_flow(reply: Tree, error: Seq<char>)
    ensures
        client_id() == "Iv1.b507a08c87ecfe98"@,
        device_flow_headers().len() == 2,
        device_flow_headers()[0] == ("Accept"@, "application/json"@),
        device_flow_headers()[1] == ("Content-Type"@, "application/json"@),
        reply.at("error"@) == Tree::Text(error) ==> told_error(reply) == error,
        !(reply.at("error"@) is Text) ==> told_error(reply).len() == 0,
{
    reveal_strlit("");
}

/// A token that is told ends the polling, whatever else is told; two errors end it
/// without one; and in all other cases it goes on, later only where the service
/// asks for it.
pub proof fn law_polling_goes_on(reply: Tree, step: PollStep)
    requires
        poll_outcome(reply, step),
    ensures
        reply.at("access_token"@) matches Tree::Text(token) ==> (step matches PollStep::Token(given)
            && given@ == token),
        step is Token ==> reply.at("access_token"@) is Text,
        step is Failed <==> !(reply.at("access_token"@) is Text) && (reply.at("error"@)
            == Tree::Text("expired_token"@) || reply.at("error"@) == Tree::Text("access_denied"@)),
        step matches PollStep::Again(seconds) ==> seconds == if reply.at("error"@) == Tree::Text(
            "slow_down"@,
        ) {
            5int
        } else {
            0
        },
{
    reveal_strlit("");
    reveal_strlit("slow_down");
    reveal_strlit("expired_token");
    reveal_strlit("access_denied");
    assert(""@.len() == 0);
    assert("slow_down"@.len() == 9);
    assert("expired_token"@.len() == 13);
    assert("access_denied"@.len() == 13);
}

} // verus!
