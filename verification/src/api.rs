//! The requests to the remote API, as plain values.
//!
//! Every request is a `GET` that carries the same three headers: the bearer
//! credential, the agent string that identifies the caller, and the media
//! type of the API's versioned JSON representation.

use crate::headers::{header_text, read_header};
use crate::link::{next_link, next_page_url};
use crate::text::{decimal, push_decimal};
use reqwest::header::HeaderMap;
use vstd::prelude::*;
use vstd::string::StringExecFns;

verus! {

/// One header of a request.
#[derive(Debug, Clone, PartialEq, Eq)]
pub struct Header {
    pub name: String,
    pub value: String,
}

/// The method of a request. The API is only read, so there is one.
#[derive(Debug, Clone, Copy, PartialEq, Eq, Structural)]
pub enum Method {
    Get,
}

/// A request that is ready to be sent.
#[derive(Debug, Clone, PartialEq, Eq)]
pub struct ApiRequest {
    pub method: Method,
    pub url: String,
    pub headers: Vec<Header>,
}

/// The address of the first page of a repository's open issues.
pub open spec fn first_page_url(owner: Seq<char>, repository: Seq<char>) -> Seq<char> {
    "https://api.github.com/repos/"@ + owner + "/"@ + repository
        + "/issues?state=open&page=1&per_page=100"@
}

/// The address of the reactions to the issue `issue_id`.
pub open spec fn reactions_url(owner: Seq<char>, repository: Seq<char>, issue_id: nat) -> Seq<
    char,
> {
    "https://api.github.com/repos/"@ + owner + "/"@ + repository + "/issues/"@ + decimal(issue_id)
        + "/reactions"@
}

/// The headers of every request, as pairs of name and value, in the order
/// in which they are set.
pub open spec fn request_headers(token: Seq<char>, user_agent: Seq<char>) -> Seq<
    (Seq<char>, Seq<char>),
> {
    seq![
        ("authorization"@, "Bearer "@ + token),
        ("user-agent"@, user_agent),
        ("accept"@, "application/vnd.github+json"@),
    ]
}

/// The name and value of each header in `headers`.
pub open spec fn header_pairs(headers: Seq<Header>) -> Seq<(Seq<char>, Seq<char>)> {
    Seq::new(headers.len(), |i: int| (headers[i].name@, headers[i].value@))
}

/// Access to one repository of the remote API.
pub struct GithubApi {
    token: String,
    user_agent: String,
    owner: String,
    repository: String,
}

/// What a `GithubApi` was made with.
pub struct GithubApiView {
    pub token: Seq<char>,
    pub user_agent: Seq<char>,
    pub owner: Seq<char>,
    pub repository: Seq<char>,
}

impl View for GithubApi {
    type V = GithubApiView;

    closed spec fn view(&self) -> GithubApiView {
        GithubApiView {
            token: self.token@,
            user_agent: self.user_agent@,
            owner: self.owner@,
            repository: self.repository@,
        }
    }
}

impl GithubApi {
    /// Access to the repository `owner`/`repository`, with the credential
    /// and the agent string that every request carries.
    pub fn new(token: String, user_agent: String, owner: String, repository: String) -> (api: Self)
        ensures
            api@ == (GithubApiView {
                token: token@,
                user_agent: user_agent@,
                owner: owner@,
                repository: repository@,
            }),
    {
        GithubApi { token, user_agent, owner, repository }
    }

    /// The address of the page that follows the one whose response headers
    /// are given: what the `link` header names as `rel="next"`. There is none
    /// where the header is absent, cannot be read as text, or names no such
    /// page.
    pub fn construct_new_url(&self, headers: &HeaderMap) -> (url: Option<String>)
        ensures
            url matches Some(u) ==> following_page(*headers) == Some(u@),
            url is None ==> following_page(*headers) is None,
    {
        proof {
            reveal_strlit("link");
        }
        match read_header(headers, "link") {
            Some(link) => next_page_url(link),
            None => None,
        }
    }

    fn headers(&self) -> (headers: Vec<Header>)
        ensures
            header_pairs(headers@) == request_headers(self@.token, self@.user_agent),
    {
        let mut bearer = String::from_str("Bearer ");
        bearer.append(self.token.as_str());
        let mut headers: Vec<Header> = Vec::new();
        headers.push(Header { name: String::from_str("authorization"), value: bearer });
        headers.push(
            Header { name: String::from_str("user-agent"), value: self.user_agent.clone() },
        );
        headers.push(
            Header {
                name: String::from_str("accept"),
                value: String::from_str("application/vnd.github+json"),
            },
        );
        assert(header_pairs(headers@) =~= request_headers(self@.token, self@.user_agent));
        headers
    }

    /// The request for one page of the issue listing: the page at `url`, or
    /// the first page where no address is given.
    pub fn issues_request(&self, url: Option<String>) -> (request: ApiRequest)
        ensures
            request.method == Method::Get,
            request.url@ == match url {
                Some(u) => u@,
                None => first_page_url(self@.owner, self@.repository),
            },
            header_pairs(request.headers@) == request_headers(self@.token, self@.user_agent),
    {
        let url = match url {
            Some(u) => u,
            None => {
                let mut first = String::from_str("https://api.github.com/repos/");
                first.append(self.owner.as_str());
                first.append("/");
                first.append(self.repository.as_str());
                first.append("/issues?state=open&page=1&per_page=100");
                first
            },
        };
        ApiRequest { method: Method::Get, url, headers: self.headers() }
    }

    /// The request for the reactions to one issue.
    pub fn reactions_request(&self, issue_id: usize) -> (request: ApiRequest)
        ensures
            request.method == Method::Get,
            request.url@ == reactions_url(self@.owner, self@.repository, issue_id as nat),
            header_pairs(request.headers@) == request_headers(self@.token, self@.user_agent),
    {
        let mut url = String::from_str("https://api.github.com/repos/");
        url.append(self.owner.as_str());
        url.append("/");
        url.append(self.repository.as_str());
        url.append("/issues/");
        push_decimal(&mut url, issue_id);
        url.append("/reactions");
        ApiRequest { method: Method::Get, url, headers: self.headers() }
    }
}

/// The address of the page that follows a response with these headers.
pub open spec fn following_page(headers: HeaderMap) -> Option<Seq<char>> {
    match header_text(headers, "link"@) {
        Some(link) => next_link(link),
        None => None,
    }
}

/// Whether a status code reports success: the codes from 200 to 299 do.
pub fn is_success(status: u16) -> (ok: bool)
    ensures
        ok == (200 <= status <= 299),
{
    200 <= status && status <= 299
}

/// Whether a request failed, given the status code of its response, or
/// `None` where no response came. A request that could not be delivered and
/// one that was answered with a status that is no success fail alike.
pub fn request_failed(status: Option<u16>) -> (failed: bool)
    ensures
        failed == match status {
            Some(code) => !(200 <= code <= 299),
            None => true,
        },
{
    match status {
        Some(code) => !is_success(code),
        None => true,
    }
}

} // verus!
