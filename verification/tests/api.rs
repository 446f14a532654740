use top_issues::api::{is_success, request_failed, ApiRequest, GithubApi, Header, Method};

fn api() -> GithubApi {
    GithubApi::new(
        "s3cr3t".to_string(),
        "issue-ranker".to_string(),
        "nikitabobko".to_string(),
        "AeroSpace".to_string(),
    )
}

fn expected_headers() -> Vec<Header> {
    vec![
        Header { name: "authorization".to_string(), value: "Bearer s3cr3t".to_string() },
        Header { name: "user-agent".to_string(), value: "issue-ranker".to_string() },
        Header { name: "accept".to_string(), value: "application/vnd.github+json".to_string() },
    ]
}

#[test]
fn first_page_request() {
    let request = api().issues_request(None);
    assert_eq!(
        request,
        ApiRequest {
            method: Method::Get,
            url: "https://api.github.com/repos/nikitabobko/AeroSpace/issues?state=open&page=1&per_page=100"
                .to_string(),
            headers: expected_headers(),
        }
    );
}

#[test]
fn following_page_request_keeps_the_address() {
    let request = api().issues_request(Some("https://elsewhere/issues?page=7".to_string()));
    assert_eq!(request.method, Method::Get);
    assert_eq!(request.url, "https://elsewhere/issues?page=7");
    assert_eq!(request.headers, expected_headers());
}

#[test]
fn reactions_request_names_the_issue() {
    let request = api().reactions_request(1234);
    assert_eq!(request.method, Method::Get);
    assert_eq!(
        request.url,
        "https://api.github.com/repos/nikitabobko/AeroSpace/issues/1234/reactions"
    );
    assert_eq!(request.headers, expected_headers());
    assert_eq!(
        api().reactions_request(0).url,
        "https://api.github.com/repos/nikitabobko/AeroSpace/issues/0/reactions"
    );
}

#[test]
fn empty_credentials_are_passed_on_as_they_are() {
    let api = GithubApi::new(String::new(), String::new(), String::new(), String::new());
    let request = api.issues_request(None);
    assert_eq!(request.url, "https://api.github.com/repos///issues?state=open&page=1&per_page=100");
    assert_eq!(request.headers[0].value, "Bearer ");
    assert_eq!(request.headers[1].value, "");
}

#[test]
fn success_is_the_two_hundreds() {
    assert!(!is_success(0));
    assert!(!is_success(199));
    assert!(is_success(200));
    assert!(is_success(204));
    assert!(is_success(299));
    assert!(!is_success(300));
    assert!(!is_success(404));
    assert!(!is_success(500));
    assert!(!is_success(u16::MAX));
}

#[test]
fn request_without_response_has_failed() {
    assert!(request_failed(None));
}

#[test]
fn request_has_failed_unless_the_status_is_a_success() {
    assert!(!request_failed(Some(200)));
    assert!(!request_failed(Some(299)));
    assert!(request_failed(Some(199)));
    assert!(request_failed(Some(300)));
    assert!(request_failed(Some(403)));
    assert!(request_failed(Some(503)));
}
