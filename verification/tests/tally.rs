use top_issues::api::GithubApi;
use top_issues::model::{Issue, IssueReaction, PullRequest, User};
use top_issues::ranking::{IssueReactionTally, RankedEntry};
use top_issues::tally::{count_upvotes, reaction_requests, ReactionOutcome, ReactionTally};

fn reaction(content: &str) -> IssueReaction {
    IssueReaction { content: content.to_string(), user: User { login: "someone".to_string() } }
}

fn upvotes(n: usize) -> Vec<IssueReaction> {
    (0..n).map(|_| reaction("+1")).collect()
}

fn entry(rank: usize, issue_number: usize, upvote_count: usize) -> RankedEntry {
    RankedEntry { rank, issue_number, upvote_count }
}

#[test]
fn only_the_positive_marker_counts() {
    let reactions = vec![reaction("+1"), reaction("-1"), reaction("+1")];
    assert_eq!(count_upvotes(&reactions), 2);
}

#[test]
fn other_contents_count_nothing() {
    let reactions = vec![
        reaction("-1"),
        reaction("heart"),
        reaction("+1 "),
        reaction(" +1"),
        reaction("+"),
        reaction("1"),
        reaction("+11"),
        reaction(""),
        reaction("\u{1f44d}"),
    ];
    assert_eq!(count_upvotes(&reactions), 0);
    assert_eq!(count_upvotes(&Vec::new()), 0);
}

#[test]
fn one_request_for_each_issue() {
    let api = GithubApi::new("t".to_string(), "a".to_string(), "o".to_string(), "r".to_string());
    let issues = vec![
        Issue { number: 12, title: "a".to_string(), pull_request: None },
        Issue { number: 5, title: "b".to_string(), pull_request: None },
        Issue { number: 12, title: "c".to_string(), pull_request: Some(PullRequest {}) },
    ];
    let requests = reaction_requests(&api, &issues);
    assert_eq!(requests.len(), 3);
    assert_eq!(requests[0].0, 12);
    assert_eq!(requests[0].1.url, "https://api.github.com/repos/o/r/issues/12/reactions");
    assert_eq!(requests[1].0, 5);
    assert_eq!(requests[1].1.url, "https://api.github.com/repos/o/r/issues/5/reactions");
    assert_eq!(requests[2].0, 12);
    assert_eq!(requests[1].1.headers[0].value, "Bearer t");
    assert!(reaction_requests(&api, &Vec::new()).is_empty());
}

#[test]
fn issue_without_upvotes_gets_no_entry() {
    let mut tally = ReactionTally::new();
    tally.on_result(1, ReactionOutcome::Fetched(vec![reaction("-1"), reaction("eyes")]));
    tally.on_result(2, ReactionOutcome::Fetched(Vec::new()));
    tally.on_result(3, ReactionOutcome::Fetched(upvotes(1)));
    assert_eq!(tally.upvotes_of(1), 0);
    assert_eq!(tally.upvotes_of(3), 1);
    assert_eq!(tally.tallies(), vec![IssueReactionTally { issue_number: 3, upvote_count: 1 }]);
    assert_eq!(tally.ranking(10), Some(vec![entry(1, 3, 1)]));
}

#[test]
fn ranking_descends_and_is_cut_at_the_limit() {
    let (a, b, c, d) = (11usize, 22usize, 33usize, 44usize);
    let mut tally = ReactionTally::new();
    tally.on_result(a, ReactionOutcome::Fetched(upvotes(5)));
    tally.on_result(b, ReactionOutcome::Fetched(upvotes(9)));
    tally.on_result(c, ReactionOutcome::Fetched(upvotes(9)));
    tally.on_result(d, ReactionOutcome::Fetched(upvotes(1)));
    let ranked = tally.ranking(2).unwrap();
    assert_eq!(ranked, vec![entry(1, b, 9), entry(2, c, 9)]);
    assert!(ranked.iter().all(|e| e.issue_number != a && e.issue_number != d));
    assert_eq!(
        tally.ranking(4).unwrap(),
        vec![entry(1, b, 9), entry(2, c, 9), entry(3, a, 5), entry(4, d, 1)]
    );
}

#[test]
fn ranking_does_not_depend_on_arrival_order() {
    let results: Vec<(usize, usize)> = vec![(8, 3), (2, 7), (5, 3), (9, 1), (1, 7), (4, 12)];
    let mut forward = ReactionTally::new();
    for (number, n) in results.iter() {
        forward.on_result(*number, ReactionOutcome::Fetched(upvotes(*n)));
    }
    let mut backward = ReactionTally::new();
    for (number, n) in results.iter().rev() {
        backward.on_result(*number, ReactionOutcome::Fetched(upvotes(*n)));
    }
    let expected = vec![
        entry(1, 4, 12),
        entry(2, 1, 7),
        entry(3, 2, 7),
        entry(4, 5, 3),
        entry(5, 8, 3),
        entry(6, 9, 1),
    ];
    assert_eq!(forward.ranking(100), Some(expected.clone()));
    assert_eq!(backward.ranking(100), Some(expected));
}

#[test]
fn ten_issues_under_limit_three_give_three_entries() {
    let mut tally = ReactionTally::new();
    for number in 1..=10usize {
        tally.on_result(number, ReactionOutcome::Fetched(upvotes(number)));
    }
    let ranked = tally.ranking(3).unwrap();
    assert_eq!(ranked.len(), 3);
    assert_eq!(ranked, vec![entry(1, 10, 10), entry(2, 9, 9), entry(3, 8, 8)]);
}

#[test]
fn limit_zero_gives_an_empty_ranking() {
    let mut tally = ReactionTally::new();
    tally.on_result(1, ReactionOutcome::Fetched(upvotes(2)));
    assert_eq!(tally.ranking(0), Some(Vec::new()));
    assert_eq!(ReactionTally::new().ranking(5), Some(Vec::new()));
}

#[test]
fn results_for_one_issue_add_up() {
    let mut tally = ReactionTally::new();
    tally.on_result(7, ReactionOutcome::Fetched(upvotes(2)));
    tally.on_result(7, ReactionOutcome::Fetched(vec![reaction("+1"), reaction("-1")]));
    tally.on_result(7, ReactionOutcome::Fetched(Vec::new()));
    assert_eq!(tally.upvotes_of(7), 3);
    assert_eq!(tally.ranking(5), Some(vec![entry(1, 7, 3)]));
}

#[test]
fn one_failure_among_many_leaves_no_ranking() {
    for failing in 0..5usize {
        let mut tally = ReactionTally::new();
        for number in 0..5usize {
            if number == failing {
                tally.on_result(number, ReactionOutcome::Failed);
            } else {
                tally.on_result(number, ReactionOutcome::Fetched(upvotes(number + 1)));
            }
        }
        assert!(tally.has_failed());
        assert_eq!(tally.ranking(5), None);
        assert_eq!(tally.ranking(0), None);
    }
}

#[test]
fn tally_without_failure_has_not_failed() {
    let mut tally = ReactionTally::new();
    assert!(!tally.has_failed());
    tally.on_result(1, ReactionOutcome::Fetched(upvotes(1)));
    assert!(!tally.has_failed());
}

#[test]
fn results_after_a_failure_are_not_counted() {
    let mut tally = ReactionTally::new();
    tally.on_result(1, ReactionOutcome::Fetched(upvotes(1)));
    tally.on_result(2, ReactionOutcome::Failed);
    tally.on_result(3, ReactionOutcome::Fetched(upvotes(4)));
    assert!(tally.has_failed());
    assert_eq!(tally.upvotes_of(1), 1);
    assert_eq!(tally.upvotes_of(3), 0);
}

#[test]
fn counting_agrees_with_a_filter_of_std() {
    let contents = ["+1", "-1", "laugh", "+1", "hooray", "", "+1", "heart", "rocket", "eyes", "confused"];
    for len in 0..40usize {
        let reactions: Vec<IssueReaction> =
            (0..len).map(|i| reaction(contents[(i * 7 + len) % contents.len()])).collect();
        let expected = reactions.iter().filter(|r| r.content == "+1").count();
        assert_eq!(count_upvotes(&reactions), expected);
    }
}

#[test]
fn tally_can_take_what_stays_within_bounds() {
    let mut tally = ReactionTally::new();
    let outcome = ReactionOutcome::Fetched(upvotes(3));
    assert!(tally.can_take(1, &outcome));
    tally.on_result(1, outcome);
    assert!(tally.can_take(1, &ReactionOutcome::Fetched(upvotes(2))));
    assert!(tally.can_take(1, &ReactionOutcome::Failed));
    tally.on_result(2, ReactionOutcome::Failed);
    assert!(tally.can_take(1, &ReactionOutcome::Fetched(upvotes(2))));
}
