//! Tallying of the reactions, issue by issue.
//!
//! One reaction list is asked for per issue, all at once, and the lists come
//! back in no particular order. Each is reduced to its number of upvotes and
//! added to the tally as it arrives. An issue without upvotes gets no entry.
//! A list that could not be had spoils the whole tally.

use crate::api::{header_pairs, reactions_url, request_headers, ApiRequest, GithubApi, Method};
use crate::model::{positive_marker, Issue, IssueReaction};
use crate::ranking::{
    lemma_ranking_descends, lemma_ranking_ignores_order, lemma_ranking_is_arrangement,
    lemma_ranking_length, lemma_ranking_shows_tallies, rank, ranking, shown, IssueReactionTally,
    RankedEntry,
};
use std::collections::HashMap;
use vstd::prelude::*;
use vstd::seq_lib::group_to_multiset_ensures;
use vstd::std_specs::hash::*;
use vstd::std_specs::iter::IteratorSpec;
use vstd::string::StringExecFns;

verus! {

/// The test that a reaction passes when it is an upvote.
pub open spec fn upvote() -> spec_fn(IssueReaction) -> bool {
    |reaction: IssueReaction| reaction.is_upvote()
}

/// The number of upvotes among `reactions`.
pub open spec fn upvotes(reactions: Seq<IssueReaction>) -> nat {
    reactions.filter(upvote()).len()
}

/// Counts the reactions whose content is the positive marker.
pub fn count_upvotes(reactions: &Vec<IssueReaction>) -> (count: usize)
    ensures
        count == upvotes(reactions@),
{
    let marker = String::from_str("+1");
    let mut count: usize = 0;
    assert(reactions@.take(0).filter(upvote()) =~= Seq::<IssueReaction>::empty()) by {
        reveal(Seq::filter);
    }
    for i in 0..reactions.len()
        invariant
            marker@ == positive_marker(),
            count <= i,
            count == upvotes(reactions@.take(i as int)),
    {
        proof {
            let seen = reactions@.take(i + 1);
            assert(seen.drop_last() =~= reactions@.take(i as int));
            assert(seen.last() == reactions@[i as int]);
            reveal(Seq::filter);
        }
        if reactions[i].content == marker {
            count += 1;
        }
    }
    assert(reactions@.take(reactions@.len() as int) =~= reactions@);
    count
}

/// The requests for the reactions to `issues`: one for each issue, in the
/// order of the issues, each with the number of the issue it is about.
pub fn reaction_requests(api: &GithubApi, issues: &Vec<Issue>) -> (requests: Vec<
    (usize, ApiRequest),
>)
    ensures
        requests.len() == issues.len(),
        forall|i: int|
            0 <= i < issues.len() ==> {
                let (number, request) = #[trigger] requests[i];
                &&& number == issues[i].number
                &&& request.method == Method::Get
                &&& request.url@ == reactions_url(api@.owner, api@.repository, number as nat)
                &&& header_pairs(request.headers@) == request_headers(
                    api@.token,
                    api@.user_agent,
                )
            },
{
    let mut requests: Vec<(usize, ApiRequest)> = Vec::new();
    for i in 0..issues.len()
        invariant
            requests.len() == i,
            forall|j: int|
                0 <= j < i ==> {
                    let (number, request) = #[trigger] requests[j];
                    &&& number == issues[j].number
                    &&& request.method == Method::Get
                    &&& request.url@ == reactions_url(api@.owner, api@.repository, number as nat)
                    &&& header_pairs(request.headers@) == request_headers(
                        api@.token,
                        api@.user_agent,
                    )
                },
    {
        let number = issues[i].number;
        requests.push((number, api.reactions_request(number)));
    }
    requests
}

/// What came back for the reactions to one issue.
pub enum ReactionOutcome {
    /// The request failed: it could not be delivered, or it was answered
    /// with a status that is no success.
    Failed,
    /// The reactions arrived.
    Fetched(Vec<IssueReaction>),
}

/// A tally as a mathematical value.
pub struct TallyView {
    /// The upvotes of each issue that has any.
    pub counts: Map<usize, nat>,
    /// Whether a reaction list could not be had.
    pub failed: bool,
}

/// The tally before any outcome.
pub open spec fn empty_tally() -> TallyView {
    TallyView { counts: Map::empty(), failed: false }
}

/// The upvotes that `counts` holds for `issue`: none where it has no entry.
pub open spec fn count_of(counts: Map<usize, nat>, issue: usize) -> nat {
    if counts.contains_key(issue) {
        counts[issue]
    } else {
        0
    }
}

/// The tally after one more outcome. A failure spoils it. A reaction list
/// with upvotes adds them to the count of its issue; one without changes
/// nothing. A spoiled tally stays as it is.
pub open spec fn record(t: TallyView, issue: usize, outcome: ReactionOutcome) -> TallyView {
    if t.failed {
        t
    } else {
        match outcome {
            ReactionOutcome::Failed => TallyView { counts: t.counts, failed: true },
            ReactionOutcome::Fetched(reactions) => if upvotes(reactions@) > 0 {
                TallyView {
                    counts: t.counts.insert(issue, count_of(t.counts, issue) + upvotes(reactions@)),
                    failed: false,
                }
            } else {
                t
            },
        }
    }
}

/// Whether the count of `issue` stays within `usize` when `outcome` is taken
/// in.
pub open spec fn fits(t: TallyView, issue: usize, outcome: ReactionOutcome) -> bool {
    !t.failed ==> (outcome matches ReactionOutcome::Fetched(reactions) ==> count_of(
        t.counts,
        issue,
    ) + upvotes(reactions@) <= usize::MAX)
}

/// Whether `tallies` lists `counts`: one tally for each issue that has a
/// count, with that count, and nothing else.
pub open spec fn lists(tallies: Seq<IssueReactionTally>, counts: Map<usize, nat>) -> bool {
    &&& tallies.no_duplicates()
    &&& forall|i: int|
        0 <= i < tallies.len() ==> {
            let tally = #[trigger] tallies[i];
            counts.contains_key(tally.issue_number) && counts[tally.issue_number]
                == tally.upvote_count
        }
    &&& forall|issue: usize| #[trigger]
        counts.contains_key(issue) ==> exists|i: int|
            0 <= i < tallies.len() && (#[trigger] tallies[i]).issue_number == issue
}

/// Whether `entries` is the ranking of `counts` under the limit `limit`.
pub open spec fn ranks(entries: Seq<RankedEntry>, counts: Map<usize, nat>, limit: nat) -> bool {
    exists|tallies: Seq<IssueReactionTally>| #[trigger]
        lists(tallies, counts) && entries == ranking(tallies, limit)
}

/// The tally reached from `t` once `results` have been taken in, in order.
/// A result is the number of an issue and what came back for its reactions.
pub open spec fn tally_after(t: TallyView, results: Seq<(usize, ReactionOutcome)>) -> TallyView
    decreases results.len(),
{
    if results.len() == 0 {
        t
    } else {
        record(tally_after(t, results.drop_last()), results.last().0, results.last().1)
    }
}

/// The upvotes that one result holds for `issue`.
pub open spec fn upvotes_for(result: (usize, ReactionOutcome), issue: usize) -> nat {
    match result.1 {
        ReactionOutcome::Fetched(reactions) => if result.0 == issue {
            upvotes(reactions@)
        } else {
            0
        },
        ReactionOutcome::Failed => 0,
    }
}

/// The upvotes that all of `results` hold for `issue`.
pub open spec fn total_upvotes(results: Seq<(usize, ReactionOutcome)>, issue: usize) -> nat
    decreases results.len(),
{
    if results.len() == 0 {
        0
    } else {
        total_upvotes(results.drop_last(), issue) + upvotes_for(results.last(), issue)
    }
}

/// A tally is spoiled exactly when one of its results is a failure.
pub proof fn lemma_failure_spoils(results: Seq<(usize, ReactionOutcome)>)
    ensures
        tally_after(empty_tally(), results).failed <==> exists|i: int|
            0 <= i < results.len() && (#[trigger] results[i]).1 is Failed,
    decreases results.len(),
{
    if results.len() > 0 {
        let earlier = results.drop_last();
        lemma_failure_spoils(earlier);
        if exists|i: int| 0 <= i < earlier.len() && (#[trigger] earlier[i]).1 is Failed {
            let i = choose|i: int| 0 <= i < earlier.len() && (#[trigger] earlier[i]).1 is Failed;
            assert(results[i].1 is Failed);
        } else if results.last().1 is Failed {
            assert(results[results.len() - 1].1 is Failed);
        } else {
            assert forall|i: int| 0 <= i < results.len() implies !((#[trigger] results[i]).1
                is Failed) by {
                if i < earlier.len() {
                    assert(earlier[i] == results[i]);
                }
            }
        }
    }
}

/// Without a failure, the count of an issue is the sum of the upvotes that
/// the results hold for it, whatever the order in which they came in; and
/// the issue has an entry exactly when that sum is not zero.
pub proof fn lemma_count_is_total(results: Seq<(usize, ReactionOutcome)>, issue: usize)
    requires
        !tally_after(empty_tally(), results).failed,
    ensures
        count_of(tally_after(empty_tally(), results).counts, issue) == total_upvotes(
            results,
            issue,
        ),
        tally_after(empty_tally(), results).counts.contains_key(issue) <==> total_upvotes(
            results,
            issue,
        ) > 0,
    decreases results.len(),
{
    if results.len() > 0 {
        lemma_count_is_total(results.drop_last(), issue);
    }
}

proof fn lemma_total_without(results: Seq<(usize, ReactionOutcome)>, at: int, issue: usize)
    requires
        0 <= at < results.len(),
    ensures
        total_upvotes(results, issue) == total_upvotes(results.remove(at), issue) + upvotes_for(
            results[at],
            issue,
        ),
    decreases results.len(),
{
    if at == results.len() - 1 {
        assert(results.remove(at) =~= results.drop_last());
    } else {
        lemma_total_without(results.drop_last(), at, issue);
        assert(results.remove(at).drop_last() =~= results.drop_last().remove(at));
        assert(results.remove(at).last() == results.last());
    }
}

/// The upvotes that results hold for an issue do not depend on the order of
/// the results.
pub proof fn lemma_total_ignores_order(
    a: Seq<(usize, ReactionOutcome)>,
    b: Seq<(usize, ReactionOutcome)>,
    issue: usize,
)
    requires
        a.to_multiset() == b.to_multiset(),
    ensures
        total_upvotes(a, issue) == total_upvotes(b, issue),
    decreases a.len(),
{
    broadcast use group_to_multiset_ensures;

    assert(a.len() == a.to_multiset().len());
    assert(b.len() == b.to_multiset().len());
    if a.len() > 0 {
        let last = a.last();
        assert(a.contains(last)) by {
            assert(a[a.len() - 1] == last);
        }
        assert(b.to_multiset().count(last) > 0);
        assert(b.contains(last));
        let at = choose|at: int| 0 <= at < b.len() && b[at] == last;
        assert(a.drop_last() =~= a.remove(a.len() - 1));
        lemma_total_ignores_order(a.drop_last(), b.remove(at), issue);
        lemma_total_without(b, at, issue);
    }
}

/// A tally does not depend on the order in which the results come in: where
/// none of them is a failure, the same results in another order give the same
/// tally, and a failure among them spoils the tally in any order.
pub proof fn lemma_tally_ignores_order(
    a: Seq<(usize, ReactionOutcome)>,
    b: Seq<(usize, ReactionOutcome)>,
)
    requires
        a.to_multiset() == b.to_multiset(),
    ensures
        tally_after(empty_tally(), a).failed == tally_after(empty_tally(), b).failed,
        !tally_after(empty_tally(), a).failed ==> tally_after(empty_tally(), a) == tally_after(
            empty_tally(),
            b,
        ),
{
    broadcast use group_to_multiset_ensures;

    let ta = tally_after(empty_tally(), a);
    let tb = tally_after(empty_tally(), b);
    lemma_failure_spoils(a);
    lemma_failure_spoils(b);
    if ta.failed {
        let i = choose|i: int| 0 <= i < a.len() && (#[trigger] a[i]).1 is Failed;
        assert(a.contains(a[i]));
        assert(b.to_multiset().count(a[i]) > 0);
        assert(b.contains(a[i]));
        let j = choose|j: int| 0 <= j < b.len() && b[j] == a[i];
        assert(b[j].1 is Failed);
    } else if tb.failed {
        let j = choose|j: int| 0 <= j < b.len() && (#[trigger] b[j]).1 is Failed;
        assert(b.contains(b[j]));
        assert(a.to_multiset().count(b[j]) > 0);
        assert(a.contains(b[j]));
        let i = choose|i: int| 0 <= i < a.len() && a[i] == b[j];
        assert(a[i].1 is Failed);
    } else {
        assert forall|issue: usize| #[trigger]
            ta.counts.dom().contains(issue) == tb.counts.dom().contains(issue) by {
            lemma_count_is_total(a, issue);
            lemma_count_is_total(b, issue);
            lemma_total_ignores_order(a, b, issue);
        }
        assert forall|issue: usize| ta.counts.dom().contains(issue) implies #[trigger] ta.counts[issue]
            == tb.counts[issue] by {
            lemma_count_is_total(a, issue);
            lemma_count_is_total(b, issue);
            lemma_total_ignores_order(a, b, issue);
        }
        assert(ta.counts =~= tb.counts);
    }
}

/// An issue whose reactions hold no upvote has no entry in the tally, and so
/// none in its ranking.
pub proof fn lemma_no_upvotes_no_entry(
    results: Seq<(usize, ReactionOutcome)>,
    issue: usize,
    limit: nat,
    entries: Seq<RankedEntry>,
    i: int,
)
    requires
        !tally_after(empty_tally(), results).failed,
        total_upvotes(results, issue) == 0,
        ranks(entries, tally_after(empty_tally(), results).counts, limit),
        0 <= i < entries.len(),
    ensures
        entries[i].issue_number != issue,
        entries[i].upvote_count > 0,
{
    let counts = tally_after(empty_tally(), results).counts;
    let tallies = choose|tallies: Seq<IssueReactionTally>| #[trigger]
        lists(tallies, counts) && entries == ranking(tallies, limit);
    lemma_ranking_shows_tallies(tallies, limit, i);
    let found = IssueReactionTally {
        issue_number: entries[i].issue_number,
        upvote_count: entries[i].upvote_count,
    };
    let at = choose|at: int| 0 <= at < tallies.len() && tallies[at] == found;
    assert(counts.contains_key(tallies[at].issue_number));
    lemma_count_is_total(results, issue);
    lemma_count_is_total(results, found.issue_number);
}

/// A list has as many tallies as there are issues with a count.
pub proof fn lemma_list_length(tallies: Seq<IssueReactionTally>, counts: Map<usize, nat>)
    requires
        lists(tallies, counts),
    ensures
        counts.dom().finite(),
        tallies.len() == counts.len(),
{
    let issues = tallies.map_values(|tally: IssueReactionTally| tally.issue_number);
    assert forall|i: int, j: int| 0 <= i < issues.len() && 0 <= j < issues.len() && i
        != j implies issues[i] != issues[j] by {
        if issues[i] == issues[j] {
            assert(tallies[i] == tallies[j]);
        }
    }
    issues.unique_seq_to_set();
    assert forall|issue: usize| counts.dom().contains(issue) implies issues.to_set().contains(
        issue,
    ) by {
        assert(counts.contains_key(issue));
        let i = choose|i: int| 0 <= i < tallies.len() && (#[trigger] tallies[i]).issue_number == issue;
        assert(issues[i] == issue);
    }
    assert forall|issue: usize| issues.to_set().contains(issue) implies counts.dom().contains(
        issue,
    ) by {
        let i = choose|i: int| 0 <= i < issues.len() && issues[i] == issue;
        assert(counts.contains_key(tallies[i].issue_number));
    }
    assert(issues.to_set() =~= counts.dom());
}

/// The ranking of a tally has as many entries as the limit allows, and one
/// for each issue with a count where those are fewer.
pub proof fn lemma_ranks_length(entries: Seq<RankedEntry>, counts: Map<usize, nat>, limit: nat)
    requires
        ranks(entries, counts, limit),
    ensures
        counts.dom().finite(),
        entries.len() == shown(limit, counts.len()),
{
    let tallies = choose|tallies: Seq<IssueReactionTally>| #[trigger]
        lists(tallies, counts) && entries == ranking(tallies, limit);
    lemma_list_length(tallies, counts);
    lemma_ranking_length(tallies, limit);
}

/// Every entry of the ranking of a tally shows an issue with the count that
/// the tally holds for it.
pub proof fn lemma_ranks_show_counts(
    entries: Seq<RankedEntry>,
    counts: Map<usize, nat>,
    limit: nat,
    i: int,
)
    requires
        ranks(entries, counts, limit),
        0 <= i < entries.len(),
    ensures
        counts.contains_key(entries[i].issue_number),
        counts[entries[i].issue_number] == entries[i].upvote_count,
{
    let tallies = choose|tallies: Seq<IssueReactionTally>| #[trigger]
        lists(tallies, counts) && entries == ranking(tallies, limit);
    lemma_ranking_shows_tallies(tallies, limit, i);
    let found = IssueReactionTally {
        issue_number: entries[i].issue_number,
        upvote_count: entries[i].upvote_count,
    };
    let at = choose|at: int| 0 <= at < tallies.len() && tallies[at] == found;
    assert(counts.contains_key(tallies[at].issue_number));
}

/// The ranking of a tally descends by upvotes. No issue is shown twice, and
/// of two issues with as many upvotes the one with the lower number stands
/// first.
pub proof fn lemma_ranks_descend(
    entries: Seq<RankedEntry>,
    counts: Map<usize, nat>,
    limit: nat,
    i: int,
    j: int,
)
    requires
        ranks(entries, counts, limit),
        0 <= i < j < entries.len(),
    ensures
        entries[i].upvote_count >= entries[j].upvote_count,
        entries[i].issue_number != entries[j].issue_number,
        entries[i].upvote_count == entries[j].upvote_count ==> entries[i].issue_number
            < entries[j].issue_number,
{
    lemma_ranking_descends(
        choose|tallies: Seq<IssueReactionTally>| #[trigger]
            lists(tallies, counts) && entries == ranking(tallies, limit),
        limit,
        i,
        j,
    );
    lemma_ranks_show_counts(entries, counts, limit, i);
    lemma_ranks_show_counts(entries, counts, limit, j);
    if entries[i].issue_number == entries[j].issue_number {
        let tallies = choose|tallies: Seq<IssueReactionTally>| #[trigger]
            lists(tallies, counts) && entries == ranking(tallies, limit);
        lemma_ranking_is_arrangement(tallies, limit, i, j);
    }
}

/// Two lists of the same counts hold the same tallies.
pub proof fn lemma_lists_agree(
    a: Seq<IssueReactionTally>,
    b: Seq<IssueReactionTally>,
    counts: Map<usize, nat>,
)
    requires
        lists(a, counts),
        lists(b, counts),
    ensures
        a.to_multiset() == b.to_multiset(),
{
    broadcast use group_to_multiset_ensures;

    a.lemma_multiset_has_no_duplicates();
    b.lemma_multiset_has_no_duplicates();
    assert forall|tally: IssueReactionTally|
        a.to_multiset().count(tally) == b.to_multiset().count(tally) by {
        if a.contains(tally) {
            lemma_listed(a, b, counts, tally);
        } else if b.contains(tally) {
            lemma_listed(b, a, counts, tally);
        }
    }
    assert(a.to_multiset() =~= b.to_multiset());
}

proof fn lemma_listed(
    a: Seq<IssueReactionTally>,
    b: Seq<IssueReactionTally>,
    counts: Map<usize, nat>,
    tally: IssueReactionTally,
)
    requires
        lists(a, counts),
        lists(b, counts),
        a.contains(tally),
    ensures
        b.contains(tally),
{
    let i = choose|i: int| 0 <= i < a.len() && a[i] == tally;
    assert(counts.contains_key(a[i].issue_number));
    let j = choose|j: int| 0 <= j < b.len() && (#[trigger] b[j]).issue_number == tally.issue_number;
    assert(b[j] == tally);
}

/// The ranking of a tally is determined by its counts and the limit: the
/// order in which the tallies are listed plays no part.
pub proof fn lemma_ranks_one(
    first: Seq<RankedEntry>,
    second: Seq<RankedEntry>,
    counts: Map<usize, nat>,
    limit: nat,
)
    requires
        ranks(first, counts, limit),
        ranks(second, counts, limit),
    ensures
        first == second,
{
    let a = choose|tallies: Seq<IssueReactionTally>| #[trigger]
        lists(tallies, counts) && first == ranking(tallies, limit);
    let b = choose|tallies: Seq<IssueReactionTally>| #[trigger]
        lists(tallies, counts) && second == ranking(tallies, limit);
    lemma_lists_agree(a, b, counts);
    lemma_ranking_ignores_order(a, b, limit);
}

/// The upvotes of the issues of one repository, as far as they have come in.
pub struct ReactionTally {
    counts: HashMap<usize, usize>,
    failed: bool,
}

impl View for ReactionTally {
    type V = TallyView;

    closed spec fn view(&self) -> TallyView {
        TallyView {
            counts: Map::new(
                |issue: usize| self.counts@.contains_key(issue),
                |issue: usize| self.counts@[issue] as nat,
            ),
            failed: self.failed,
        }
    }
}

impl ReactionTally {
    #[verifier::type_invariant]
    spec fn only_upvoted(&self) -> bool {
        forall|issue: usize| #[trigger] self.counts@.contains_key(issue) ==> self.counts@[issue] > 0
    }

    /// A tally without entries.
    pub fn new() -> (tally: Self)
        ensures
            tally@ == empty_tally(),
    {
        let tally = ReactionTally { counts: HashMap::new(), failed: false };
        assert(tally@.counts =~= Map::<usize, nat>::empty());
        tally
    }

    /// Whether a reaction list could not be had.
    pub fn has_failed(&self) -> (failed: bool)
        ensures
            failed == self@.failed,
    {
        self.failed
    }

    /// The upvotes counted so far for `issue_number`.
    pub fn upvotes_of(&self, issue_number: usize) -> (count: usize)
        ensures
            count == count_of(self@.counts, issue_number),
    {
        broadcast use group_hash_axioms;

        match self.counts.get(&issue_number) {
            Some(count) => *count,
            None => 0,
        }
    }

    /// Whether the tally can take in `outcome` for `issue_number`: whether the
    /// count of the issue stays within `usize`.
    pub fn can_take(&self, issue_number: usize, outcome: &ReactionOutcome) -> (ok: bool)
        ensures
            ok == fits(self@, issue_number, *outcome),
    {
        if self.failed {
            return true;
        }
        match outcome {
            ReactionOutcome::Failed => true,
            ReactionOutcome::Fetched(reactions) => {
                let added = count_upvotes(reactions);
                let prior = self.upvotes_of(issue_number);
                added <= usize::MAX - prior
            },
        }
    }

    /// Takes in what came back for the reactions to `issue_number`.
    ///
    /// The count of an issue has to stay within `usize`: see `can_take`.
    pub fn on_result(&mut self, issue_number: usize, outcome: ReactionOutcome)
        requires
            fits(old(self)@, issue_number, outcome),
        ensures
            final(self)@ == record(old(self)@, issue_number, outcome),
    {
        broadcast use group_hash_axioms;

        proof {
            use_type_invariant(&*self);
        }
        if self.failed {
            return ;
        }
        match outcome {
            ReactionOutcome::Failed => {
                self.failed = true;
                assert(self@.counts =~= old(self)@.counts);
            },
            ReactionOutcome::Fetched(reactions) => {
                let added = count_upvotes(&reactions);
                if added > 0 {
                    let prior = self.upvotes_of(issue_number);
                    let mut counts: HashMap<usize, usize> = HashMap::new();
                    core::mem::swap(&mut counts, &mut self.counts);
                    counts.insert(issue_number, prior + added);
                    core::mem::swap(&mut counts, &mut self.counts);
                    assert(self@.counts =~= old(self)@.counts.insert(
                        issue_number,
                        count_of(old(self)@.counts, issue_number) + upvotes(reactions@),
                    ));
                }
            },
        }
    }

    /// The tallies, one for each issue with upvotes, in no particular order.
    pub fn tallies(&self) -> (tallies: Vec<IssueReactionTally>)
        ensures
            lists(tallies@, self@.counts),
    {
        broadcast use group_hash_axioms;

        let mut tallies: Vec<IssueReactionTally> = Vec::new();
        for entry in it: self.counts.iter()
            invariant
                it.seq() == spec_hash_map_iter(&self.counts).remaining(),
                it.seq().no_duplicates(),
                tallies.len() == it.index(),
                forall|j: int|
                    0 <= j < it.index() ==> #[trigger] tallies[j] == (IssueReactionTally {
                        issue_number: *it.seq()[j].0,
                        upvote_count: *it.seq()[j].1,
                    }),
        {
            let (issue_number, upvote_count) = entry;
            tallies.push(
                IssueReactionTally { issue_number: *issue_number, upvote_count: *upvote_count },
            );
        }
        proof {
            let pairs = spec_hash_map_iter(&self.counts).remaining();
            assert forall|i: int, j: int|
                0 <= i < tallies.len() && 0 <= j < tallies.len() && i != j implies tallies[i]
                != tallies[j] by {
                assert(pairs[i] != pairs[j]);
            }
            assert forall|issue: usize| #[trigger]
                self@.counts.contains_key(issue) implies exists|i: int|
                0 <= i < tallies.len() && (#[trigger] tallies[i]).issue_number == issue by {
                assert(pairs.contains((&issue, &self.counts@[issue])));
                let i = choose|i: int|
                    0 <= i < pairs.len() && pairs[i] == (&issue, &self.counts@[issue]);
                assert(tallies[i].issue_number == issue);
            }
        }
        tallies
    }

    /// The ranking of the tally under the limit `limit`; `None` where a
    /// reaction list could not be had.
    pub fn ranking(&self, limit: usize) -> (entries: Option<Vec<RankedEntry>>)
        ensures
            match entries {
                Some(e) => !self@.failed && ranks(e@, self@.counts, limit as nat),
                None => self@.failed,
            },
    {
        if self.failed {
            return None;
        }
        let tallies = self.tallies();
        let entries = rank(&tallies, limit);
        assert(lists(tallies@, self@.counts) && entries@ == ranking(tallies@, limit as nat));
        Some(entries)
    }
}

} // verus!
