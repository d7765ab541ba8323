//! The services that the proxy talks to.

use vstd::prelude::*;
use vstd::string::*;

use crate::json::{lemma_trees, Json, Tree};
use crate::text::{before, text_before};

pub mod copilot;
pub mod github;

verus! {

/// Model info from the Copilot API.
#[derive(Debug)]
pub struct ModelInfo {
    pub id: String,
    pub name: String,
    pub vendor: String,
    pub version: String,
    pub preview: bool,
    pub model_picker_enabled: bool,
    pub capabilities: ModelCapabilities,
}

#[derive(Debug)]
pub struct ModelCapabilities {
    pub family: String,
    pub limits: ModelLimits,
    pub cap_type: String,
}

#[derive(Debug)]
pub struct ModelLimits {
    pub max_context_window_tokens: Option<u64>,
    pub max_output_tokens: Option<u64>,
    pub max_prompt_tokens: Option<u64>,
}

/// Response from `GET /models`.
#[derive(Debug)]
pub struct ModelsResponse {
    pub data: Vec<ModelInfo>,
}

/// How a request is made.
#[derive(Debug, Clone, Copy, PartialEq, Eq, Structural)]
pub enum Method {
    Get,
    Post,
}

/// A request to a service: where it goes, with which headers and which body.
pub struct ServiceRequest {
    pub method: Method,
    pub url: String,
    pub headers: Vec<(String, String)>,
    pub body: Option<Json>,
}

/// The names and values of a list of headers.
pub open spec fn header_views(headers: Seq<(String, String)>) -> Seq<(Seq<char>, Seq<char>)> {
    headers.map_values(|header: (String, String)| (header.0@, header.1@))
}

/// A body, as a tree.
pub open spec fn body_tree(body: Option<Json>) -> Option<Tree> {
    match body {
        Some(json) => Some(json@),
        None => None,
    }
}

impl ServiceRequest {
    /// The request is that one.
    pub open spec fn is(
        self,
        method: Method,
        url: Seq<char>,
        headers: Seq<(Seq<char>, Seq<char>)>,
        body: Option<Tree>,
    ) -> bool {
        &&& self.method == method
        &&& self.url@ == url
        &&& header_views(self.headers@) == headers
        &&& body_tree(self.body) == body
    }
}

/// Puts a header behind those of a list.
pub fn add_header(headers: &mut Vec<(String, String)>, name: &str, value: &str)
    ensures
        header_views(final(headers)@) == header_views(old(headers)@).push((name@, value@)),
{
    let ghost before = header_views(headers@);
    headers.push((name.to_owned(), value.to_owned()));
    proof {
        assert(header_views(headers@) =~= before.push((name@, value@)));
    }
}

/// A status that tells success.
pub open spec fn is_success_status(status: u16) -> bool {
    200 <= status < 300
}

/// Whether a status tells success.
pub fn is_success(status: u16) -> (success: bool)
    ensures
        success == is_success_status(status),
{
    200 <= status && status < 300
}

/// The editor version that is told where none can be found out.
pub open spec fn default_vscode_version() -> Seq<char> {
    "1.114.0"@
}

/// The editor version that the package index tells, without the suffix of its
/// package; the default where the reply tells none or did not come.
pub open spec fn told_vscode_version(reply: Option<Tree>) -> Seq<char> {
    match reply {
        Some(tree) => match tree.at("results"@).item(0).at("Version"@).as_text() {
            Some(version) => before(version, '-'),
            None => default_vscode_version(),
        },
        None => default_vscode_version(),
    }
}

/// The address at which the package index tells the editor version.
pub fn vscode_version_url() -> (url: String)
    ensures
        url@ == "https://aur.archlinux.org/rpc/v5/info?arg[]=visual-studio-code-bin"@,
{
    "https://aur.archlinux.org/rpc/v5/info?arg[]=visual-studio-code-bin".to_owned()
}

/// The editor version, from the reply of the package index where one came.
pub fn fetch_vscode_version(reply: Option<&Json>) -> (version: String)
    ensures
        version@ == told_vscode_version(
            match reply {
                Some(json) => Some(json@),
                None => None,
            },
        ),
{
    if let Some(json) = reply {
        if let Some(results) = json.array_at("results") {
            proof {
                lemma_trees(results@);
            }
            if results.len() > 0 {
                if let Some(version) = results[0].text_at("Version") {
                    return text_before(version, '-');
                }
            }
        }
    }
    "1.114.0".to_owned()
}

/// The statuses from 200 to 299 tell success, and no others.
pub proof fn law_success(status: u16)
    ensures
        is_success_status(status) <==> status / 100 == 2,
{
}

/// The editor version is what stands before the hyphen in the version of the
/// first result, or the default where there is none.
pub proof fn law_editor_version(
    reply: Tree,
    version: Seq<char>,
    suffix: Seq<char>,
    results: Seq<Tree>,
)
    requires
        !version.contains('-'),
        reply.at("results"@) == Tree::Array(results),
    ensures
        told_vscode_version(None) == "1.114.0"@,
        results.len() == 0 ==> told_vscode_version(Some(reply)) == "1.114.0"@,
        results.len() > 0 && results[0].at("Version"@) == Tree::Text(version + "-"@ + suffix)
            ==> told_vscode_version(Some(reply)) == version,
        results.len() > 0 && results[0].at("Version"@) == Tree::Text(version)
            ==> told_vscode_version(Some(reply)) == version,
        results.len() > 0 && !(results[0].at("Version"@) is Text) ==> told_vscode_version(
            Some(reply),
        ) == "1.114.0"@,
{
    reveal_strlit("-");
    assert("-"@.len() == 1);
    lemma_before(version, seq![]);
    lemma_before(version, "-"@ + suffix);
    assert(version + seq![] =~= version);
    assert(version + "-"@ + suffix =~= version + ("-"@ + suffix));
}

proof fn lemma_before(text: Seq<char>, rest: Seq<char>)
    requires
        !text.contains('-'),
        rest.len() > 0 ==> rest[0] == '-',
    ensures
        before(text + rest, '-') == text,
    decreases text.len(),
{
    let whole = text + rest;
    if text.len() == 0 {
        assert(whole =~= rest);
    } else {
        assert(text.contains(text[0]));
        let behind = text.drop_first();
        assert(!behind.contains('-')) by {
            if behind.contains('-') {
                let i = choose|i: int| 0 <= i < behind.len() && behind[i] == '-';
                assert(text[i + 1] == '-');
            }
        }
        lemma_before(behind, rest);
        assert(whole.drop_first() =~= behind + rest);
        assert(before(whole, '-') =~= text);
    }
}

/// A request is told by its method, its address, its headers in order and its
/// body.
pub proof fn law_requests_are_seen(
    request: ServiceRequest,
    method: Method,
    url: Seq<char>,
    headers: Seq<(Seq<char>, Seq<char>)>,
    body: Option<Tree>,
    i: int,
)
    requires
        request.is(method, url, headers, body),
        0 <= i < headers.len(),
    ensures
        request.method == method,
        request.url@ == url,
        request.headers@.len() == headers.len(),
        request.headers@[i].0@ == headers[i].0,
        request.headers@[i].1@ == headers[i].1,
        body is Some ==> request.body is Some && request.body->0@ == body->0,
        body is None ==> request.body is None,
{
    assert(header_views(request.headers@)[i] == headers[i]);
}

} // verus!
