//! Talking to a GitLab instance: where it is, who asks, and what a response means.
//!
//! The instance is always reached directly. A self-hosted one is usually found on an internal
//! network only.
use vstd::prelude::*;
use vstd::string::*;

use crate::config::{instance_url, GitlabConfig, GitlabView};
use crate::http_status::{status_line, HttpStatus};
use crate::text::{
    equals, not_blank, opt_str, opt_text, same, texts, trim_end, trim_end_slashes, unless_blank,
};

verus! {

broadcast use {vstd::string::group_string_axioms, vstd::std_specs::hash::group_hash_axioms};

/// How long connecting may take.
pub const CONNECT_TIMEOUT_SECS: u64 = 10;

/// How long a response may take.
pub const READ_TIMEOUT_SECS: u64 = 30;

/// What a response holds, and where the next page is.
#[derive(Debug)]
pub struct Page<T> {
    pub items: T,
    pub next_page: Option<String>,
}

/// A GitLab instance as this user asks it.
#[derive(Debug)]
pub struct GitlabClient {
    base: String,
    token: Option<String>,
    host: String,
}

/// What went wrong: the line that tells of it, and the causes behind it, the nearest first.
#[derive(Debug)]
pub struct ErrorChain {
    pub message: String,
    pub causes: Vec<String>,
}

/// What an `ErrorChain` says.
#[verifier::ext_equal]
pub struct ChainView {
    pub message: Seq<char>,
    pub causes: Seq<Seq<char>>,
}

impl View for ErrorChain {
    type V = ChainView;

    open spec fn view(&self) -> ChainView {
        ChainView { message: self.message@, causes: texts(self.causes@) }
    }
}

/// An error that has no cause but itself.
pub open spec fn alone(message: Seq<char>) -> ChainView {
    ChainView { message, causes: Seq::empty() }
}

impl ErrorChain {
    /// An error that has no cause but itself.
    pub fn new(message: String) -> (res: Self)
        ensures
            res@ == alone(message@),
    {
        let res = ErrorChain { message, causes: Vec::new() };
        assert(res@ =~= alone(message@));
        res
    }
}

/// Why a request failed.
#[derive(Debug)]
pub enum GitlabHttpError {
    /// The instance answered with this status.
    Status(HttpStatus),
    /// There was no usable answer; the chain says why.
    Other(ErrorChain),
}

/// Why an address is not that of a GitLab instance.
#[derive(Debug, PartialEq, Eq)]
pub enum UrlError {
    Invalid { url: String, cause: String },
    Scheme(String),
    NoHost(String),
}

/// What a `UrlError` says.
pub enum UrlErrorView {
    Invalid { url: Seq<char>, cause: Seq<char> },
    Scheme(Seq<char>),
    NoHost(Seq<char>),
}

impl View for UrlError {
    type V = UrlErrorView;

    open spec fn view(&self) -> UrlErrorView {
        match self {
            UrlError::Invalid { url, cause } => UrlErrorView::Invalid { url: url@, cause: cause@ },
            UrlError::Scheme(url) => UrlErrorView::Scheme(url@),
            UrlError::NoHost(url) => UrlErrorView::NoHost(url@),
        }
    }
}

/// The line that tells of a bad address.
pub open spec fn url_message(e: UrlErrorView) -> Seq<char> {
    match e {
        UrlErrorView::Invalid { url, cause: _ } => "gitlab url is not a valid URI: "@ + url,
        UrlErrorView::Scheme(url) => "gitlab url must start with http:// or https:// (got "@ + url
            + ")"@,
        UrlErrorView::NoHost(url) => "gitlab url has no host: "@ + url,
    }
}

/// What tells of a bad address, with what the parser says of one that it refuses.
pub open spec fn url_chain(e: UrlErrorView) -> ChainView {
    ChainView {
        message: url_message(e),
        causes: match e {
            UrlErrorView::Invalid { url: _, cause } => seq![cause],
            _ => Seq::empty(),
        },
    }
}

impl UrlError {
    /// The line that tells the user.
    pub fn message(&self) -> (res: String)
        ensures
            res@ == url_message(self@),
    {
        match self {
            UrlError::Invalid { url, cause: _ } => {
                let mut text = "gitlab url is not a valid URI: ".to_owned();
                text.append(url.as_str());
                text
            },
            UrlError::Scheme(url) => {
                let mut text = "gitlab url must start with http:// or https:// (got ".to_owned();
                text.append(url.as_str());
                text.append(")");
                text
            },
            UrlError::NoHost(url) => {
                let mut text = "gitlab url has no host: ".to_owned();
                text.append(url.as_str());
                text
            },
        }
    }

    /// The line that tells the user, and the cause behind it.
    pub fn chain(&self) -> (res: ErrorChain)
        ensures
            res@ == url_chain(self@),
    {
        let mut res = ErrorChain::new(self.message());
        if let UrlError::Invalid { url: _, cause } = self {
            res.causes.push(cause.clone());
        }
        assert(res@ =~= url_chain(self@));
        res
    }
}

/// What a parsed address says: scheme and host.
#[derive(Debug)]
pub struct UriParts {
    pub scheme: Option<String>,
    pub host: Option<String>,
}

/// What a `UriParts` says.
pub struct UriView {
    pub scheme: Option<Seq<char>>,
    pub host: Option<Seq<char>>,
}

impl View for UriParts {
    type V = UriView;

    open spec fn view(&self) -> UriView {
        UriView { scheme: opt_text(self.scheme), host: opt_text(self.host) }
    }
}

/// The view of the outcome of parsing an address.
pub open spec fn parts_view(outcome: Result<UriParts, String>) -> Result<UriView, Seq<char>> {
    match outcome {
        Ok(parts) => Ok(parts@),
        Err(cause) => Err(cause@),
    }
}

/// Scheme and host of an address as `http::Uri` reads it; what the parser says where it is no URI.
pub uninterp spec fn uri_parts(url: Seq<char>) -> Result<UriView, Seq<char>>;

/// Parses an address as `http::Uri`. The grammar is that crate's; scheme and host of the result go
/// by the name `uri_parts`, and so does the text of the error where the parser refuses the address.
#[verifier::external_body]
fn parse_uri(url: &str) -> (res: Result<UriParts, String>)
    ensures
        parts_view(res) == uri_parts(url@),
{
    match url.parse::<http::Uri>() {
        Ok(uri) => Ok(
            UriParts {
                scheme: uri.scheme_str().map(str::to_owned),
                host: uri.host().map(str::to_owned),
            },
        ),
        Err(e) => Err(e.to_string()),
    }
}

/// The host of the instance at `url`, of which `parts` are scheme and host.
pub open spec fn instance_host(url: Seq<char>, parts: Result<UriView, Seq<char>>) -> Result<
    Seq<char>,
    UrlErrorView,
> {
    match parts {
        Err(cause) => Err(UrlErrorView::Invalid { url, cause }),
        Ok(parts) => if parts.scheme != Some("http"@) && parts.scheme != Some("https"@) {
            Err(UrlErrorView::Scheme(url))
        } else {
            match parts.host {
                Some(host) => Ok(host),
                None => Err(UrlErrorView::NoHost(url)),
            }
        },
    }
}

/// The view of the outcome of looking for a host.
pub open spec fn host_view(outcome: Result<String, UrlError>) -> Result<Seq<char>, UrlErrorView> {
    match outcome {
        Ok(host) => Ok(host@),
        Err(e) => Err(e@),
    }
}

/// The host of the instance at `url`, of which `parts` are scheme and host.
pub fn host_from_parts(url: &str, parts: Result<UriParts, String>) -> (res: Result<
    String,
    UrlError,
>)
    ensures
        host_view(res) == instance_host(url@, parts_view(parts)),
{
    let parts = match parts {
        Ok(parts) => parts,
        Err(cause) => return Err(UrlError::Invalid { url: url.to_owned(), cause }),
    };
    let spoken = match &parts.scheme {
        Some(scheme) => same(scheme.as_str(), "http") || same(scheme.as_str(), "https"),
        None => false,
    };
    if !spoken {
        return Err(UrlError::Scheme(url.to_owned()));
    }
    match parts.host {
        Some(host) => Ok(host),
        None => Err(UrlError::NoHost(url.to_owned())),
    }
}

/// The host of the instance at `url`.
pub fn host_from_url(url: &str) -> (res: Result<String, UrlError>)
    ensures
        host_view(res) == instance_host(url@, uri_parts(url@)),
{
    host_from_parts(url, parse_uri(url))
}

/// The token to ask with: that of the environment goes before the configured one, and a blank one
/// counts as none.
pub open spec fn chosen_token(env: Option<Seq<char>>, configured: Option<Seq<char>>) -> Option<
    Seq<char>,
> {
    match not_blank(env) {
        Some(token) => Some(token),
        None => not_blank(configured),
    }
}

/// The token to ask with. `env` is the value of `$GITLAB_TOKEN`, which goes before the configured
/// token; a blank one counts as none.
pub fn gitlab_token(cfg: &GitlabConfig, env: Option<&str>) -> (res: Option<String>)
    ensures
        opt_text(res) == chosen_token(opt_str(env), cfg@.token),
{
    match unless_blank(env) {
        Some(token) => Some(token),
        None => {
            let configured = match &cfg.token {
                Some(token) => Some(token.as_str()),
                None => None,
            };
            unless_blank(configured)
        },
    }
}

/// A request: its address and its headers.
#[derive(Debug)]
pub struct GitlabRequest {
    pub url: String,
    pub headers: Vec<(String, String)>,
}

/// The headers of a request, as texts.
pub open spec fn header_views(headers: Seq<(String, String)>) -> Seq<(Seq<char>, Seq<char>)> {
    headers.map_values(|header: (String, String)| (header.0@, header.1@))
}

/// The headers that a request carries.
pub open spec fn request_headers(token: Option<Seq<char>>) -> Seq<(Seq<char>, Seq<char>)> {
    let plain = seq![
        ("user-agent"@, "ghpending"@),
        ("accept"@, "application/json"@),
    ];
    match token {
        Some(token) => plain.push(("PRIVATE-TOKEN"@, token)),
        None => plain,
    }
}

/// The address of a request for `path` with `query`.
pub open spec fn request_url(base: Seq<char>, path: Seq<char>, query: Seq<char>) -> Seq<char> {
    base + path + "?"@ + query
}

/// Where the API of the instance at `url` is.
pub open spec fn api_base(url: Seq<char>) -> Seq<char> {
    trim_end(url, equals('/')) + "/api/v4"@
}

impl GitlabClient {
    /// Where the API is.
    pub closed spec fn spec_base(&self) -> Seq<char> {
        self.base@
    }

    /// The token that requests carry.
    pub closed spec fn spec_token(&self) -> Option<Seq<char>> {
        opt_text(self.token)
    }

    /// The host of the instance.
    pub closed spec fn spec_host(&self) -> Seq<char> {
        self.host@
    }

    /// Where the API is, without a slash at the end.
    pub fn base(&self) -> (res: &str)
        ensures
            res@ == self.spec_base(),
    {
        self.base.as_str()
    }

    /// The host of the instance.
    pub fn host(&self) -> (res: &str)
        ensures
            res@ == self.spec_host(),
    {
        self.host.as_str()
    }

    /// Whether requests carry a token.
    pub fn has_token(&self) -> (res: bool)
        ensures
            res == (self.spec_token() is Some),
    {
        self.token.is_some()
    }

    /// The request for `path`, which is percent-encoded already, with `query`.
    pub fn request(&self, path: &str, query: &str) -> (res: GitlabRequest)
        ensures
            res.url@ == request_url(self.spec_base(), path@, query@),
            header_views(res.headers@) == request_headers(self.spec_token()),
    {
        let mut url = self.base.clone();
        url.append(path);
        url.append("?");
        url.append(query);
        let mut headers: Vec<(String, String)> = Vec::new();
        headers.push(("user-agent".to_owned(), "ghpending".to_owned()));
        headers.push(("accept".to_owned(), "application/json".to_owned()));
        if let Some(token) = &self.token {
            headers.push(("PRIVATE-TOKEN".to_owned(), token.clone()));
        }
        assert(header_views(headers@) =~= request_headers(self.spec_token()));
        GitlabRequest { url, headers }
    }
}

/// What a client knows of its instance.
pub struct ClientView {
    pub base: Seq<char>,
    pub host: Seq<char>,
    pub token: Option<Seq<char>>,
}

/// The instance that the configuration names, where `env_token` is the value of `$GITLAB_TOKEN`.
pub open spec fn built(cfg: GitlabView, env_token: Option<Seq<char>>) -> Result<
    ClientView,
    UrlErrorView,
> {
    let url = instance_url(cfg.url);
    match instance_host(url, uri_parts(url)) {
        Ok(host) => Ok(
            ClientView { base: api_base(url), host, token: chosen_token(env_token, cfg.token) },
        ),
        Err(e) => Err(e),
    }
}

/// The instance that the configuration names. `env_token` is the value of `$GITLAB_TOKEN`.
pub fn build(cfg: &GitlabConfig, env_token: Option<&str>) -> (res: Result<GitlabClient, UrlError>)
    ensures
        match built(cfg@, opt_str(env_token)) {
            Ok(told) => res matches Ok(client) && client.spec_base() == told.base
                && client.spec_host() == told.host && client.spec_token() == told.token,
            Err(e) => res matches Err(told) && told@ == e,
        },
{
    let url = cfg.effective_url();
    let host = match host_from_url(url) {
        Ok(host) => host,
        Err(e) => return Err(e),
    };
    let mut base = trim_end_slashes(url).to_owned();
    base.append("/api/v4");
    Ok(GitlabClient { base, token: gitlab_token(cfg, env_token), host })
}

/// What the head of a response with the status `code` tells: the next page where it names one.
/// Nothing where the request failed.
pub open spec fn head_read(code: u16, next_page: Option<Seq<char>>) -> Option<Option<Seq<char>>> {
    if 200 <= code <= 299 {
        Some(not_blank(next_page))
    } else {
        None
    }
}

/// What the head of a response means: where the next page is, or that the request failed.
/// `next_page` is the header `x-next-page`, which is blank on the last page.
pub fn response_head(status: HttpStatus, next_page: Option<&str>) -> (res: Result<
    Option<String>,
    GitlabHttpError,
>)
    ensures
        match head_read(status.spec_code(), opt_str(next_page)) {
            Some(next) => res matches Ok(told) && opt_text(told) == next,
            None => res matches Err(e) && e == GitlabHttpError::Status(status),
        },
{
    if !status.is_success() {
        return Err(GitlabHttpError::Status(status));
    }
    Ok(unless_blank(next_page))
}

/// The step at which a request failed without an answer.
#[derive(Debug, Clone, Copy, PartialEq, Eq, Structural)]
pub enum RequestStep {
    Building,
    Waiting,
    Requesting,
    Reading,
    Parsing,
}

/// The line that tells of a request to `url` that failed at `step`.
pub open spec fn step_message(step: RequestStep, url: Seq<char>) -> Seq<char> {
    match step {
        RequestStep::Building => "building GitLab request"@,
        RequestStep::Waiting => "GitLab request timed out: "@ + url,
        RequestStep::Requesting => "requesting "@ + url,
        RequestStep::Reading => "reading "@ + url,
        RequestStep::Parsing => "parsing GitLab response from "@ + url,
    }
}

/// What tells of a request to `url` that failed at `step` for `causes`. A response that did not
/// come in time is its own cause.
pub open spec fn step_chain(step: RequestStep, url: Seq<char>, causes: Seq<Seq<char>>) -> ChainView {
    match step {
        RequestStep::Waiting => alone(step_message(step, url)),
        _ => ChainView { message: step_message(step, url), causes },
    }
}

/// The failure of a request to `url` at `step`. `causes` are what the failed step tells of itself,
/// the nearest first.
pub fn failed_at(step: RequestStep, url: &str, causes: Vec<String>) -> (res: GitlabHttpError)
    ensures
        res matches GitlabHttpError::Other(chain) && chain@ == step_chain(
            step,
            url@,
            texts(causes@),
        ),
{
    let mut message = match step {
        RequestStep::Building => {
            return GitlabHttpError::Other(
                ErrorChain { message: "building GitLab request".to_owned(), causes },
            );
        },
        RequestStep::Waiting => {
            let mut message = "GitLab request timed out: ".to_owned();
            message.append(url);
            return GitlabHttpError::Other(ErrorChain::new(message));
        },
        RequestStep::Requesting => "requesting ".to_owned(),
        RequestStep::Reading => "reading ".to_owned(),
        RequestStep::Parsing => "parsing GitLab response from ".to_owned(),
    };
    message.append(url);
    GitlabHttpError::Other(ErrorChain { message, causes })
}

/// The line that tells of a failed request.
pub open spec fn http_error_message(e: GitlabHttpError) -> Seq<char> {
    match e {
        GitlabHttpError::Status(status) => "http "@ + status_line(status.spec_code()),
        GitlabHttpError::Other(chain) => chain@.message,
    }
}

impl GitlabHttpError {
    /// The line that tells of the failure.
    pub fn message(&self) -> (res: String)
        ensures
            res@ == http_error_message(*self),
    {
        match self {
            GitlabHttpError::Status(status) => {
                let mut text = "http ".to_owned();
                text.append(status.text().as_str());
                text
            },
            GitlabHttpError::Other(chain) => chain.message.clone(),
        }
    }
}

/// A token given in the environment is the one that is used, whatever is configured; without one,
/// or with a blank one, the configured token is.
pub proof fn environment_token_wins(env: Option<Seq<char>>, configured: Option<Seq<char>>)
    ensures
        not_blank(env) is Some ==> chosen_token(env, configured) == not_blank(env),
        not_blank(env) is None ==> chosen_token(env, configured) == not_blank(configured),
{
}

} // verus!
