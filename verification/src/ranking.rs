//! Ranking of tallies.
//!
//! Tallies are ranked by their upvote count, the highest first. Where two
//! issues have as many upvotes, the one with the lower number comes first, so
//! that a ranking does not depend on the order in which the tallies arrive.

use vstd::prelude::*;
use vstd::relations::{sorted_by, total_ordering};
use vstd::seq_lib::{group_to_multiset_ensures, lemma_sorted_unique};

verus! {

/// The upvotes that one issue received.
#[derive(Debug, Clone, Copy, PartialEq, Eq, Structural)]
pub struct IssueReactionTally {
    pub issue_number: usize,
    pub upvote_count: usize,
}

/// One line of the ranking.
#[derive(Debug, Clone, Copy, PartialEq, Eq, Structural)]
pub struct RankedEntry {
    /// The place in the ranking, counted from one.
    pub rank: usize,
    pub issue_number: usize,
    pub upvote_count: usize,
}

/// Whether `a` stands no later than `b` in a ranking: it has more upvotes,
/// or as many and no higher an issue number.
pub open spec fn precedes(a: IssueReactionTally, b: IssueReactionTally) -> bool {
    a.upvote_count > b.upvote_count || (a.upvote_count == b.upvote_count && a.issue_number
        <= b.issue_number)
}

/// The order of a ranking, as a relation.
pub open spec fn rank_order() -> spec_fn(IssueReactionTally, IssueReactionTally) -> bool {
    |a: IssueReactionTally, b: IssueReactionTally| precedes(a, b)
}

/// The number of entries that a ranking of `available` tallies shows under
/// the limit `limit`.
pub open spec fn shown(limit: nat, available: nat) -> nat {
    if limit < available {
        limit
    } else {
        available
    }
}

/// The entry that `tally` makes at index `i` of a ranking.
pub open spec fn entry_at(i: int, tally: IssueReactionTally) -> RankedEntry {
    RankedEntry {
        rank: (i + 1) as usize,
        issue_number: tally.issue_number,
        upvote_count: tally.upvote_count,
    }
}

/// The ranking of `tallies` under the limit `limit`: the tallies in rank
/// order, cut after `limit` entries, each with its place.
pub open spec fn ranking(tallies: Seq<IssueReactionTally>, limit: nat) -> Seq<RankedEntry> {
    let sorted = tallies.sort_by(rank_order());
    Seq::new(shown(limit, sorted.len()), |i: int| entry_at(i, sorted[i]))
}

/// The order of a ranking is total: any two tallies are comparable, and two
/// tallies that precede each other are the same tally.
pub proof fn lemma_rank_order_total()
    ensures
        total_ordering(rank_order()),
{
    let r = rank_order();
    assert forall|x: IssueReactionTally, y: IssueReactionTally| #[trigger]
        r(x, y) && #[trigger] r(y, x) implies x == y by {
        assert(precedes(x, y) && precedes(y, x));
    }
    assert forall|x: IssueReactionTally, y: IssueReactionTally, z: IssueReactionTally| #[trigger]
        r(x, y) && #[trigger] r(y, z) implies r(x, z) by {
        assert(precedes(x, y) && precedes(y, z));
    }
    assert forall|x: IssueReactionTally, y: IssueReactionTally| #[trigger]
        r(x, y) || #[trigger] r(y, x) by {
        assert(precedes(x, y) || precedes(y, x));
    }
    assert forall|x: IssueReactionTally| #[trigger] r(x, x) by {
        assert(precedes(x, x));
    }
}

fn stands_before(a: &IssueReactionTally, b: &IssueReactionTally) -> (r: bool)
    ensures
        r == precedes(*a, *b),
{
    a.upvote_count > b.upvote_count || (a.upvote_count == b.upvote_count && a.issue_number
        <= b.issue_number)
}

/// Puts tallies into rank order.
pub fn sort_tallies(tallies: &Vec<IssueReactionTally>) -> (sorted: Vec<IssueReactionTally>)
    ensures
        sorted@ == tallies@.sort_by(rank_order()),
{
    let mut sorted: Vec<IssueReactionTally> = Vec::new();
    let mut i: usize = 0;
    assert(tallies@.take(0) =~= Seq::<IssueReactionTally>::empty());
    while i < tallies.len()
        invariant
            i <= tallies.len(),
            sorted_by(sorted@, rank_order()),
            sorted@.to_multiset() == tallies@.take(i as int).to_multiset(),
        decreases tallies.len() - i,
    {
        let tally = tallies[i];
        let mut at: usize = 0;
        while at < sorted.len() && stands_before(&sorted[at], &tally)
            invariant
                at <= sorted.len(),
                forall|j: int| 0 <= j < at ==> precedes(#[trigger] sorted@[j], tally),
            decreases sorted.len() - at,
        {
            at += 1;
        }
        let ghost earlier = sorted@;
        sorted.insert(at, tally);
        proof {
            broadcast use group_to_multiset_ensures;

            assert(tallies@.take(i + 1) =~= tallies@.take(i as int).push(tally));
            assert forall|a: int, b: int| 0 <= a < b < sorted@.len() implies #[trigger] rank_order()(
                sorted@[a],
                sorted@[b],
            ) by {
                if b < at {
                    assert(rank_order()(earlier[a], earlier[b]));
                } else if b == at {
                    assert(precedes(earlier[a], tally));
                } else if a < at {
                    assert(rank_order()(earlier[a], earlier[b - 1]));
                } else if a == at {
                    assert(!precedes(earlier[at as int], tally));
                    if b - 1 > at {
                        assert(rank_order()(earlier[at as int], earlier[b - 1]));
                    }
                    assert(precedes(tally, earlier[b - 1]));
                } else {
                    assert(rank_order()(earlier[a - 1], earlier[b - 1]));
                }
            }
        }
        i += 1;
    }
    proof {
        assert(tallies@.take(tallies@.len() as int) =~= tallies@);
        lemma_rank_order_total();
        tallies@.lemma_sort_by_ensures(rank_order());
        lemma_sorted_unique(sorted@, tallies@.sort_by(rank_order()), rank_order());
    }
    sorted
}

/// Ranks tallies and keeps the first `limit` entries.
pub fn rank(tallies: &Vec<IssueReactionTally>, limit: usize) -> (entries: Vec<RankedEntry>)
    ensures
        entries@ == ranking(tallies@, limit as nat),
{
    let sorted = sort_tallies(tallies);
    let count = if limit < sorted.len() {
        limit
    } else {
        sorted.len()
    };
    let mut entries: Vec<RankedEntry> = Vec::new();
    let mut i: usize = 0;
    while i < count
        invariant
            i <= count <= sorted.len(),
            entries.len() == i,
            forall|j: int| 0 <= j < i ==> entries@[j] == entry_at(j, #[trigger] sorted@[j]),
        decreases count - i,
    {
        entries.push(
            RankedEntry {
                rank: i + 1,
                issue_number: sorted[i].issue_number,
                upvote_count: sorted[i].upvote_count,
            },
        );
        i += 1;
    }
    assert(entries@ =~= ranking(tallies@, limit as nat));
    entries
}

/// A ranking does not depend on the order in which the tallies are given.
pub proof fn lemma_ranking_ignores_order(
    a: Seq<IssueReactionTally>,
    b: Seq<IssueReactionTally>,
    limit: nat,
)
    requires
        a.to_multiset() == b.to_multiset(),
    ensures
        ranking(a, limit) == ranking(b, limit),
{
    lemma_rank_order_total();
    a.lemma_sort_by_ensures(rank_order());
    b.lemma_sort_by_ensures(rank_order());
    lemma_sorted_unique(a.sort_by(rank_order()), b.sort_by(rank_order()), rank_order());
}

/// A ranking shows as many entries as the limit allows, and all tallies
/// where there are fewer.
pub proof fn lemma_ranking_length(tallies: Seq<IssueReactionTally>, limit: nat)
    ensures
        ranking(tallies, limit).len() == shown(limit, tallies.len()),
{
    broadcast use group_to_multiset_ensures;

    lemma_rank_order_total();
    tallies.lemma_sort_by_ensures(rank_order());
    let sorted = tallies.sort_by(rank_order());
    assert(sorted.to_multiset().len() == sorted.len());
    assert(tallies.to_multiset().len() == tallies.len());
}

/// A ranking descends: an entry has at least as many upvotes as every entry
/// after it, and a lower issue number where it has as many.
pub proof fn lemma_ranking_descends(tallies: Seq<IssueReactionTally>, limit: nat, i: int, j: int)
    requires
        0 <= i < j < ranking(tallies, limit).len(),
    ensures
        ranking(tallies, limit)[i].upvote_count >= ranking(tallies, limit)[j].upvote_count,
        ranking(tallies, limit)[i].upvote_count == ranking(tallies, limit)[j].upvote_count
            ==> ranking(tallies, limit)[i].issue_number <= ranking(tallies, limit)[j].issue_number,
{
    lemma_rank_order_total();
    tallies.lemma_sort_by_ensures(rank_order());
    let sorted = tallies.sort_by(rank_order());
    assert(rank_order()(sorted[i], sorted[j]));
}

/// The places of a ranking count up from one. This holds of every list of
/// tallies that a vector can hold.
pub proof fn lemma_ranking_places(tallies: Seq<IssueReactionTally>, limit: nat, i: int)
    requires
        tallies.len() <= usize::MAX,
        0 <= i < ranking(tallies, limit).len(),
    ensures
        ranking(tallies, limit)[i].rank == i + 1,
{
    lemma_ranking_length(tallies, limit);
}

/// A ranking shows no tally more often than it was given: where the tallies
/// hold no tally twice, two places of their ranking show different tallies.
pub proof fn lemma_ranking_is_arrangement(
    tallies: Seq<IssueReactionTally>,
    limit: nat,
    i: int,
    j: int,
)
    requires
        tallies.no_duplicates(),
        0 <= i < j < ranking(tallies, limit).len(),
    ensures
        ranking(tallies, limit)[i].issue_number != ranking(tallies, limit)[j].issue_number
            || ranking(tallies, limit)[i].upvote_count != ranking(tallies, limit)[j].upvote_count,
{
    broadcast use group_to_multiset_ensures;

    lemma_rank_order_total();
    tallies.lemma_sort_by_ensures(rank_order());
    let sorted = tallies.sort_by(rank_order());
    tallies.lemma_multiset_has_no_duplicates();
    sorted.lemma_multiset_has_no_duplicates_conv();
    assert(sorted[i] != sorted[j]);
}

/// Every entry of a ranking is one of the tallies.
pub proof fn lemma_ranking_shows_tallies(tallies: Seq<IssueReactionTally>, limit: nat, i: int)
    requires
        0 <= i < ranking(tallies, limit).len(),
    ensures
        tallies.contains(
            IssueReactionTally {
                issue_number: ranking(tallies, limit)[i].issue_number,
                upvote_count: ranking(tallies, limit)[i].upvote_count,
            },
        ),
{
    lemma_rank_order_total();
    tallies.lemma_sort_by_ensures(rank_order());
    let sorted = tallies.sort_by(rank_order());
    assert(sorted.contains(sorted[i]));
}

/// A ranking shows the best: a tally is either shown, or every entry that is
/// shown precedes it.
pub proof fn lemma_ranking_shows_the_best(
    tallies: Seq<IssueReactionTally>,
    limit: nat,
    tally: IssueReactionTally,
)
    requires
        tallies.contains(tally),
    ensures
        (exists|i: int|
            0 <= i < ranking(tallies, limit).len() && #[trigger] ranking(tallies, limit)[i]
                == entry_at(i, tally)) || (forall|i: int|
            0 <= i < ranking(tallies, limit).len() ==> precedes(
                IssueReactionTally {
                    issue_number: (#[trigger] ranking(tallies, limit)[i]).issue_number,
                    upvote_count: ranking(tallies, limit)[i].upvote_count,
                },
                tally,
            )),
{
    broadcast use group_to_multiset_ensures;

    lemma_rank_order_total();
    tallies.lemma_sort_by_ensures(rank_order());
    let sorted = tallies.sort_by(rank_order());
    let r = ranking(tallies, limit);
    assert(sorted.to_multiset().count(tally) > 0);
    assert(sorted.contains(tally));
    let at = choose|at: int| 0 <= at < sorted.len() && sorted[at] == tally;
    if at < r.len() {
        assert(r[at] == entry_at(at, tally));
    } else {
        assert forall|i: int| 0 <= i < r.len() implies precedes(
            IssueReactionTally {
                issue_number: (#[trigger] r[i]).issue_number,
                upvote_count: r[i].upvote_count,
            },
            tally,
        ) by {
            assert(rank_order()(sorted[i], sorted[at]));
        }
    }
}

} // verus!
