//! What the proxy holds between requests.

use vstd::prelude::*;
use vstd::string::*;

use crate::account_store::AccountStore;
use crate::ids::{is_uuid, new_uuid};
use crate::services::{add_header, header_views, ModelsResponse};
use crate::text::same_text;

verus! {

/// What a request is served with: the account that it goes to.
#[derive(Debug)]
pub struct RequestContext {
    pub copilot_token: String,
    pub github_token: String,
    pub account_type: String,
    pub account_id: Option<String>,
}

/// Server-wide configuration.
#[derive(Debug)]
pub struct ServerConfig {
    pub port: u16,
    pub account_type: String,
    pub manual_approve: bool,
    pub rate_limit_seconds: Option<u64>,
    pub rate_limit_wait: bool,
    pub show_token: bool,
    pub verbose: bool,
    pub single_account: bool,
}

impl Default for ServerConfig {
    fn default() -> (config: ServerConfig)
        ensures
            config.port == 4141,
            config.account_type@ == "individual"@,
            !config.manual_approve,
            config.rate_limit_seconds is None,
            !config.rate_limit_wait,
            !config.show_token,
            !config.verbose,
            !config.single_account,
    {
        ServerConfig {
            port: 4141,
            account_type: "individual".to_owned(),
            manual_approve: false,
            rate_limit_seconds: None,
            rate_limit_wait: false,
            show_token: false,
            verbose: false,
            single_account: false,
        }
    }
}

/// One line of the traffic log.
#[derive(Debug)]
pub struct TrafficLogEntry {
    pub time: String,
    pub method: String,
    pub endpoint: String,
    pub model: String,
    pub account: String,
    pub status: u16,
    pub tokens: Option<u64>,
}

/// The state of the application.
#[derive(Debug)]
pub struct AppState {
    pub config: ServerConfig,
    pub models: Option<ModelsResponse>,
    pub vscode_version: String,
    pub store: AccountStore,
    pub last_request_timestamp: Option<u64>,
    pub traffic_logs: Vec<TrafficLogEntry>,
}

/// How many lines the traffic log keeps.
pub const TRAFFIC_LOG_LIMIT: usize = 500;

/// The last lines of a log, as many as are kept.
pub open spec fn last_entries(logs: Seq<TrafficLogEntry>) -> Seq<TrafficLogEntry> {
    if logs.len() > TRAFFIC_LOG_LIMIT {
        logs.skip(logs.len() - TRAFFIC_LOG_LIMIT)
    } else {
        logs
    }
}

impl AppState {
    /// The state in which the server starts.
    pub fn new(config: ServerConfig, store: AccountStore) -> (state: AppState)
        ensures
            state.config == config,
            state.models is None,
            state.vscode_version@ == "1.114.0"@,
            state.store == store,
            state.last_request_timestamp is None,
            state.traffic_logs@ == Seq::<TrafficLogEntry>::empty(),
    {
        AppState {
            config,
            models: None,
            vscode_version: "1.114.0".to_owned(),
            store,
            last_request_timestamp: None,
            traffic_logs: Vec::new(),
        }
    }

    /// The state, but for its log, is that of another.
    pub open spec fn same_but_log(self, other: AppState) -> bool {
        &&& self.config == other.config
        &&& self.models == other.models
        &&& self.vscode_version == other.vscode_version
        &&& self.store == other.store
        &&& self.last_request_timestamp == other.last_request_timestamp
    }

    /// The state, but for its store and the time of the last request, is that
    /// of another.
    pub open spec fn same_but_requests(self, other: AppState) -> bool {
        &&& self.config == other.config
        &&& self.models == other.models
        &&& self.vscode_version == other.vscode_version
        &&& self.traffic_logs == other.traffic_logs
    }

    /// Puts a line behind the log and drops the oldest lines over the limit.
    pub fn add_traffic_log(&mut self, entry: TrafficLogEntry)
        ensures
            final(self).traffic_logs@ == last_entries(old(self).traffic_logs@.push(entry)),
            final(self).same_but_log(*old(self)),
    {
        self.traffic_logs.push(entry);
        let count: usize = self.traffic_logs.len();
        if count > TRAFFIC_LOG_LIMIT {
            let kept: Vec<TrafficLogEntry> = self.traffic_logs.split_off(
                count - TRAFFIC_LOG_LIMIT,
            );
            proof {
                let all = old(self).traffic_logs@.push(entry);
                assert(kept@ =~= all.skip(all.len() - TRAFFIC_LOG_LIMIT));
            }
            self.traffic_logs = kept;
        }
    }
}

/// The base URL of the Copilot API for an account type.
pub open spec fn base_url(account_type: Seq<char>) -> Seq<char> {
    if account_type == "business"@ {
        "https://api.business.githubcopilot.com"@
    } else if account_type == "enterprise"@ {
        "https://api.enterprise.githubcopilot.com"@
    } else {
        "https://api.githubcopilot.com"@
    }
}

/// Copilot API base URL based on account type.
pub fn copilot_base_url(account_type: &str) -> (url: &'static str)
    ensures
        url@ == base_url(account_type@),
{
    if same_text(account_type, "business") {
        "https://api.business.githubcopilot.com"
    } else if same_text(account_type, "enterprise") {
        "https://api.enterprise.githubcopilot.com"
    } else {
        "https://api.githubcopilot.com"
    }
}

/// The headers of a request to the Copilot API.
pub open spec fn copilot_header_views(
    copilot_token: Seq<char>,
    vscode_version: Seq<char>,
    vision: bool,
    request_id: Seq<char>,
) -> Seq<(Seq<char>, Seq<char>)> {
    let headers = seq![
        ("Authorization"@, "Bearer "@ + copilot_token),
        ("Content-Type"@, "application/json"@),
        ("Copilot-Integration-Id"@, "vscode-chat"@),
        ("Editor-Version"@, "vscode/"@ + vscode_version),
        ("Editor-Plugin-Version"@, "copilot-chat/0.43.0"@),
        ("User-Agent"@, "GitHubCopilotChat/0.43.0"@),
        ("OpenAI-Intent"@, "conversation-panel"@),
        ("X-GitHub-Api-Version"@, "2025-04-01"@),
        ("X-Request-Id"@, request_id),
        ("X-VSCode-User-Agent-Library-Version"@, "electron-fetch"@),
    ];
    if vision {
        headers.push(("Copilot-Vision-Request"@, "true"@))
    } else {
        headers
    }
}

/// The headers of a request to the Copilot API, under that request id.
pub fn copilot_headers_with(
    copilot_token: &str,
    vscode_version: &str,
    vision: bool,
    request_id: &str,
) -> (headers: Vec<(String, String)>)
    ensures
        header_views(headers@) == copilot_header_views(
            copilot_token@,
            vscode_version@,
            vision,
            request_id@,
        ),
{
    let mut headers: Vec<(String, String)> = Vec::new();
    let mut bearer: String = "Bearer ".to_owned();
    bearer.append(copilot_token);
    let mut editor: String = "vscode/".to_owned();
    editor.append(vscode_version);
    add_header(&mut headers, "Authorization", bearer.as_str());
    add_header(&mut headers, "Content-Type", "application/json");
    add_header(&mut headers, "Copilot-Integration-Id", "vscode-chat");
    add_header(&mut headers, "Editor-Version", editor.as_str());
    add_header(&mut headers, "Editor-Plugin-Version", "copilot-chat/0.43.0");
    add_header(&mut headers, "User-Agent", "GitHubCopilotChat/0.43.0");
    add_header(&mut headers, "OpenAI-Intent", "conversation-panel");
    add_header(&mut headers, "X-GitHub-Api-Version", "2025-04-01");
    add_header(&mut headers, "X-Request-Id", request_id);
    add_header(&mut headers, "X-VSCode-User-Agent-Library-Version", "electron-fetch");
    if vision {
        add_header(&mut headers, "Copilot-Vision-Request", "true");
    }
    proof {
        assert(header_views(headers@) =~= copilot_header_views(
            copilot_token@,
            vscode_version@,
            vision,
            request_id@,
        ));
    }
    headers
}

/// The headers of a request to the Copilot API, under a random request id.
pub fn copilot_headers(copilot_token: &str, vscode_version: &str, vision: bool) -> (headers: Vec<
    (String, String),
>)
    ensures
        exists|request_id: Seq<char>| #[trigger]
            is_uuid(request_id) && header_views(headers@) == copilot_header_views(
                copilot_token@,
                vscode_version@,
                vision,
                request_id,
            ),
{
    let request_id: String = new_uuid();
    copilot_headers_with(copilot_token, vscode_version, vision, request_id.as_str())
}

/// The headers of a request to the GitHub API.
pub open spec fn github_header_views(github_token: Seq<char>) -> Seq<(Seq<char>, Seq<char>)> {
    seq![
        ("Authorization"@, "token "@ + github_token),
        ("Accept"@, "application/json"@),
        ("User-Agent"@, "rotation-copilot"@),
    ]
}

/// The headers of a request to the GitHub API.
pub fn github_headers(github_token: &str) -> (headers: Vec<(String, String)>)
    ensures
        header_views(headers@) == github_header_views(github_token@),
{
    let mut headers: Vec<(String, String)> = Vec::new();
    let mut authorization: String = "token ".to_owned();
    authorization.append(github_token);
    add_header(&mut headers, "Authorization", authorization.as_str());
    add_header(&mut headers, "Accept", "application/json");
    add_header(&mut headers, "User-Agent", "rotation-copilot");
    proof {
        assert(header_views(headers@) =~= github_header_views(github_token@));
    }
    headers
}

/// The log after these lines have been put behind it, one by one.
pub open spec fn logged(logs: Seq<TrafficLogEntry>, entries: Seq<TrafficLogEntry>) -> Seq<
    TrafficLogEntry,
>
    decreases entries.len(),
{
    if entries.len() == 0 {
        logs
    } else {
        last_entries(logged(logs, entries.drop_last()).push(entries.last()))
    }
}

/// The log keeps the newest lines, in the order in which they came, up to its
/// limit.
pub proof fn law_log_keeps_the_newest(logs: Seq<TrafficLogEntry>, entries: Seq<TrafficLogEntry>)
    requires
        logs.len() <= TRAFFIC_LOG_LIMIT,
    ensures
        logged(logs, entries) == last_entries(logs + entries),
        logged(logs, entries).len() <= TRAFFIC_LOG_LIMIT,
    decreases entries.len(),
{
    if entries.len() == 0 {
        assert(logs + entries =~= logs);
    } else {
        let earlier = entries.drop_last();
        law_log_keeps_the_newest(logs, earlier);
        assert(logged(logs, entries) =~= last_entries(logs + entries));
    }
}

/// The log holds the newest five hundred lines: a line more comes last, and the
/// oldest leaves only where there are too many.
pub proof fn law_log_holds_five_hundred(logs: Seq<TrafficLogEntry>, entry: TrafficLogEntry)
    requires
        logs.len() <= 500,
    ensures
        last_entries(logs.push(entry)) == if logs.len() < 500 {
            logs.push(entry)
        } else {
            logs.drop_first().push(entry)
        },
        last_entries(logs.push(entry)).len() <= 500,
        last_entries(logs.push(entry)).last() == entry,
{
    if logs.len() == 500 {
        assert(logs.push(entry).skip(1) =~= logs.drop_first().push(entry));
    }
}

/// Each kind of account has its own service; what is neither business nor
/// enterprise goes to the common one.
pub proof fn law_account_types_have_their_service(account_type: Seq<char>)
    ensures
        base_url("business"@) == "https://api.business.githubcopilot.com"@,
        base_url("enterprise"@) == "https://api.enterprise.githubcopilot.com"@,
        base_url("individual"@) == "https://api.githubcopilot.com"@,
        account_type != "business"@ && account_type != "enterprise"@ ==> base_url(account_type)
            == base_url("individual"@),
{
    reveal_strlit("business");
    reveal_strlit("enterprise");
    reveal_strlit("individual");
    assert("business"@.len() == 8);
    assert("enterprise"@.len() == 10);
    assert("individual"@.len() == 10);
    assert("enterprise"@[0] != "individual"@[0]);
}

/// A request to the Copilot API shows the token of its account, the version of
/// the editor and its own id, and tells of an image only where there is one. A
/// request to the GitHub API shows the token of the account.
pub proof fn law_requests_show_their_token(
    token: Seq<char>,
    version: Seq<char>,
    vision: bool,
    request_id: Seq<char>,
)
    ensures
        ({
            let headers = copilot_header_views(token, version, vision, request_id);
            &&& headers[0] == ("Authorization"@, "Bearer "@ + token)
            &&& headers[1] == ("Content-Type"@, "application/json"@)
            &&& headers[2] == ("Copilot-Integration-Id"@, "vscode-chat"@)
            &&& headers[3] == ("Editor-Version"@, "vscode/"@ + version)
            &&& headers[4] == ("Editor-Plugin-Version"@, "copilot-chat/0.43.0"@)
            &&& headers[5] == ("User-Agent"@, "GitHubCopilotChat/0.43.0"@)
            &&& headers[6] == ("OpenAI-Intent"@, "conversation-panel"@)
            &&& headers[7] == ("X-GitHub-Api-Version"@, "2025-04-01"@)
            &&& headers[8] == ("X-Request-Id"@, request_id)
            &&& headers[9] == ("X-VSCode-User-Agent-Library-Version"@, "electron-fetch"@)
            &&& vision ==> headers.len() == 11 && headers[10] == (
                "Copilot-Vision-Request"@,
                "true"@,
            )
            &&& !vision ==> headers.len() == 10
        }),
        github_header_views(token)[0] == ("Authorization"@, "token "@ + token),
        github_header_views(token)[1] == ("Accept"@, "application/json"@),
        github_header_views(token)[2] == ("User-Agent"@, "rotation-copilot"@),
        github_header_views(token).len() == 3,
{
}

} // verus!
