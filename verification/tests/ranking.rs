use top_issues::ranking::{rank, sort_tallies, IssueReactionTally, RankedEntry};

fn tally(issue_number: usize, upvote_count: usize) -> IssueReactionTally {
    IssueReactionTally { issue_number, upvote_count }
}

#[test]
fn tallies_are_sorted_by_count_then_number() {
    let tallies = vec![tally(3, 1), tally(1, 4), tally(9, 4), tally(2, 4), tally(7, 10)];
    assert_eq!(
        sort_tallies(&tallies),
        vec![tally(7, 10), tally(1, 4), tally(2, 4), tally(9, 4), tally(3, 1)]
    );
    assert!(sort_tallies(&Vec::new()).is_empty());
}

#[test]
fn sorting_keeps_equal_tallies() {
    let tallies = vec![tally(1, 1), tally(2, 2), tally(1, 1)];
    assert_eq!(sort_tallies(&tallies), vec![tally(2, 2), tally(1, 1), tally(1, 1)]);
}

#[test]
fn rank_counts_places_from_one() {
    let tallies = vec![tally(30, 2), tally(10, 8), tally(20, 5)];
    assert_eq!(
        rank(&tallies, 10),
        vec![
            RankedEntry { rank: 1, issue_number: 10, upvote_count: 8 },
            RankedEntry { rank: 2, issue_number: 20, upvote_count: 5 },
            RankedEntry { rank: 3, issue_number: 30, upvote_count: 2 },
        ]
    );
}

#[test]
fn rank_cuts_at_the_limit() {
    let tallies = vec![tally(30, 2), tally(10, 8), tally(20, 5)];
    assert_eq!(rank(&tallies, 1), vec![RankedEntry { rank: 1, issue_number: 10, upvote_count: 8 }]);
    assert!(rank(&tallies, 0).is_empty());
    assert_eq!(rank(&tallies, 3).len(), 3);
    assert_eq!(rank(&tallies, usize::MAX).len(), 3);
}

#[test]
fn rank_handles_the_largest_values() {
    let tallies = vec![tally(0, 0), tally(usize::MAX, usize::MAX), tally(usize::MAX, 0)];
    assert_eq!(
        rank(&tallies, 2),
        vec![
            RankedEntry { rank: 1, issue_number: usize::MAX, upvote_count: usize::MAX },
            RankedEntry { rank: 2, issue_number: 0, upvote_count: 0 },
        ]
    );
}

#[test]
fn ranking_agrees_with_a_sort_of_std() {
    let mut seed: u64 = 0x2545_f491_4f6c_dd1d;
    let mut next = move || {
        seed ^= seed << 13;
        seed ^= seed >> 7;
        seed ^= seed << 17;
        seed
    };
    for round in 0..200usize {
        let len = round % 23;
        let tallies: Vec<IssueReactionTally> =
            (0..len).map(|_| tally((next() % 12) as usize, (next() % 6) as usize)).collect();
        let mut expected = tallies.clone();
        expected.sort_by(|a, b| {
            b.upvote_count.cmp(&a.upvote_count).then(a.issue_number.cmp(&b.issue_number))
        });
        assert_eq!(sort_tallies(&tallies), expected);
        let limit = (next() % 30) as usize;
        let ranked = rank(&tallies, limit);
        assert_eq!(ranked.len(), limit.min(len));
        for (i, entry) in ranked.iter().enumerate() {
            assert_eq!(entry.rank, i + 1);
            assert_eq!(entry.issue_number, expected[i].issue_number);
            assert_eq!(entry.upvote_count, expected[i].upvote_count);
        }
    }
}
