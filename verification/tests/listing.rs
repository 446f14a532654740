use reqwest::header::{HeaderMap, HeaderValue, LINK};
use top_issues::api::GithubApi;
use top_issues::listing::{retain_issues, IssueListing, PageOutcome};
use top_issues::model::{Issue, PullRequest};

fn api() -> GithubApi {
    GithubApi::new("t".to_string(), "a".to_string(), "octo".to_string(), "demo".to_string())
}

fn issue(number: usize) -> Issue {
    Issue { number, title: format!("issue {}", number), pull_request: None }
}

fn pull_request(number: usize) -> Issue {
    Issue { number, title: format!("change {}", number), pull_request: Some(PullRequest {}) }
}

fn with_next(url: &str) -> HeaderMap {
    let mut headers = HeaderMap::new();
    let value = format!("<{}>; rel=\"next\", <https://x/last>; rel=\"last\"", url);
    headers.insert(LINK, HeaderValue::from_str(&value).unwrap());
    headers
}

fn numbers(issues: &[Issue]) -> Vec<usize> {
    issues.iter().map(|i| i.number).collect()
}

#[test]
fn pull_requests_are_dropped_from_a_page() {
    let page = vec![issue(1), pull_request(2), issue(3), pull_request(4), pull_request(5), issue(6)];
    let kept = retain_issues(page);
    assert_eq!(numbers(&kept), vec![1, 3, 6]);
    assert!(kept.iter().all(|i| i.pull_request.is_none()));
    assert_eq!(kept[1].title, "issue 3");
}

#[test]
fn page_of_pull_requests_only_retains_nothing() {
    assert!(retain_issues(vec![pull_request(1), pull_request(2)]).is_empty());
    assert!(retain_issues(Vec::new()).is_empty());
}

#[test]
fn listing_of_150_with_20_pull_requests_takes_two_requests() {
    let api = api();
    let mut first: Vec<Issue> = Vec::new();
    let mut second: Vec<Issue> = Vec::new();
    for n in 1..=150usize {
        let entry = if n % 10 == 0 || n == 7 || n == 77 || n == 101 || n == 133 || n == 149 {
            pull_request(n)
        } else {
            issue(n)
        };
        if n <= 100 {
            first.push(entry);
        } else {
            second.push(entry);
        }
    }
    let pulls = first.iter().chain(second.iter()).filter(|i| i.pull_request.is_some()).count();
    assert_eq!(pulls, 20);
    let expected: Vec<usize> = first
        .iter()
        .chain(second.iter())
        .filter(|i| i.pull_request.is_none())
        .map(|i| i.number)
        .collect();

    let mut pages = vec![
        PageOutcome::Page { issues: second, headers: HeaderMap::new() },
        PageOutcome::Page { issues: first, headers: with_next("https://x/issues?page=2") },
    ];
    let mut listing = IssueListing::new();
    let mut urls: Vec<String> = Vec::new();
    while let Some(request) = listing.next_request(&api) {
        urls.push(request.url);
        listing.on_page(&api, pages.pop().unwrap());
    }
    assert_eq!(
        urls,
        vec![
            "https://api.github.com/repos/octo/demo/issues?state=open&page=1&per_page=100".to_string(),
            "https://x/issues?page=2".to_string(),
        ]
    );
    assert!(pages.is_empty());
    assert!(listing.is_done());
    let issues = listing.into_issues();
    assert_eq!(issues.len(), 130);
    assert_eq!(numbers(&issues), expected);
}

#[test]
fn pages_are_kept_in_page_order() {
    let api = api();
    let mut listing = IssueListing::new();
    assert!(!listing.is_done());
    listing.on_page(
        &api,
        PageOutcome::Page { issues: vec![issue(9), pull_request(8), issue(7)], headers: with_next("https://x/2") },
    );
    assert_eq!(listing.next_request(&api).unwrap().url, "https://x/2");
    listing.on_page(
        &api,
        PageOutcome::Page { issues: vec![pull_request(6)], headers: with_next("https://x/3") },
    );
    assert_eq!(listing.next_request(&api).unwrap().url, "https://x/3");
    listing.on_page(&api, PageOutcome::Page { issues: vec![issue(5), issue(4)], headers: HeaderMap::new() });
    assert!(listing.is_done());
    assert!(listing.next_request(&api).is_none());
    assert_eq!(numbers(&listing.into_issues()), vec![9, 7, 5, 4]);
}

#[test]
fn failed_first_request_gives_an_empty_listing() {
    let api = api();
    let mut listing = IssueListing::new();
    listing.on_page(&api, PageOutcome::Failed);
    assert!(listing.is_done());
    assert!(listing.next_request(&api).is_none());
    assert!(listing.into_issues().is_empty());
}

#[test]
fn failed_later_request_keeps_what_was_collected() {
    let api = api();
    let mut listing = IssueListing::new();
    listing.on_page(&api, PageOutcome::Page { issues: vec![issue(1), issue(2)], headers: with_next("https://x/2") });
    listing.on_page(&api, PageOutcome::Failed);
    assert!(listing.is_done());
    assert_eq!(numbers(&listing.into_issues()), vec![1, 2]);
}

#[test]
fn outcome_after_the_end_changes_nothing() {
    let api = api();
    let mut listing = IssueListing::new();
    listing.on_page(&api, PageOutcome::Page { issues: vec![issue(1)], headers: HeaderMap::new() });
    assert!(listing.is_done());
    listing.on_page(&api, PageOutcome::Page { issues: vec![issue(2)], headers: with_next("https://x/2") });
    assert!(listing.is_done());
    assert_eq!(numbers(&listing.into_issues()), vec![1]);
}

#[test]
fn request_carries_the_three_headers() {
    let api = api();
    let listing = IssueListing::new();
    let request = listing.next_request(&api).unwrap();
    let names: Vec<&str> = request.headers.iter().map(|h| h.name.as_str()).collect();
    assert_eq!(names, vec!["authorization", "user-agent", "accept"]);
    assert_eq!(request.headers[0].value, "Bearer t");
    assert_eq!(request.headers[1].value, "a");
    assert_eq!(request.headers[2].value, "application/vnd.github+json");
}
