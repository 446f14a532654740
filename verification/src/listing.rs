//! The traversal of the issue listing, page by page.
//!
//! The caller sends the requests. After each one it reports what came back,
//! and the traversal decides what is kept and which page, if any, is asked
//! for next. A failed request ends the traversal with what was collected up
//! to then.

use crate::api::{
    first_page_url, following_page, header_pairs, request_headers, ApiRequest, GithubApi, Method,
};
use crate::model::Issue;
use reqwest::header::HeaderMap;
use vstd::prelude::*;

verus! {

/// The test that an entry of the listing passes when it is an issue proper.
pub open spec fn not_pull_request() -> spec_fn(Issue) -> bool {
    |issue: Issue| !issue@.is_pull_request
}

/// The entries of a page that are kept: those that are no pull requests, in
/// the order of the page.
pub open spec fn retained(page: Seq<Issue>) -> Seq<Issue> {
    page.filter(not_pull_request())
}

/// Drops the pull requests from a page of the listing.
pub fn retain_issues(page: Vec<Issue>) -> (kept: Vec<Issue>)
    ensures
        kept@ == retained(page@),
        forall|i: int| 0 <= i < kept.len() ==> !(#[trigger] kept[i])@.is_pull_request,
{
    let mut kept: Vec<Issue> = Vec::new();
    for issue in it: page
        invariant
            it.seq() == page@,
            kept@ == retained(page@.take(it.index())),
            forall|i: int| 0 <= i < kept.len() ==> !(#[trigger] kept[i])@.is_pull_request,
    {
        proof {
            let seen = page@.take(it.index() + 1);
            assert(seen.drop_last() =~= page@.take(it.index()));
            assert(seen.last() == issue);
            reveal(Seq::filter);
        }
        if !issue.is_pull_request() {
            kept.push(issue);
        }
    }
    assert(page@.take(page@.len() as int) =~= page@);
    kept
}

/// What came back for one page request.
pub enum PageOutcome {
    /// The request failed: it could not be delivered, or it was answered
    /// with a status that is no success.
    Failed,
    /// The page arrived, with these entries and these response headers.
    Page { issues: Vec<Issue>, headers: HeaderMap },
}

/// A page outcome as the traversal reads it.
pub enum PageView {
    Failed,
    /// The entries of the page, and the address of the page that follows, if
    /// the response names one.
    Page { issues: Seq<Issue>, next: Option<Seq<char>> },
}

impl View for PageOutcome {
    type V = PageView;

    open spec fn view(&self) -> PageView {
        match self {
            PageOutcome::Failed => PageView::Failed,
            PageOutcome::Page { issues, headers } => PageView::Page {
                issues: issues@,
                next: following_page(*headers),
            },
        }
    }
}

/// The page that a traversal asks for next.
pub enum Position {
    /// The first page.
    First,
    /// The page at this address.
    Next(Seq<char>),
    /// No page: the traversal has ended.
    Done,
}

/// A traversal as a mathematical value.
pub struct ListingView {
    pub position: Position,
    /// The issues collected so far.
    pub issues: Seq<Issue>,
    /// How many page requests have been answered.
    pub requests: nat,
}

/// The traversal before its first request.
pub open spec fn start() -> ListingView {
    ListingView { position: Position::First, issues: Seq::empty(), requests: 0 }
}

/// The traversal after one more outcome. A failure ends it and keeps what was
/// collected. A page adds its retained entries, and the traversal goes on to
/// the page that the response names, or ends where it names none. Once ended,
/// a traversal stays as it is.
pub open spec fn step(s: ListingView, outcome: PageView) -> ListingView {
    match s.position {
        Position::Done => s,
        _ => match outcome {
            PageView::Failed => ListingView {
                position: Position::Done,
                issues: s.issues,
                requests: s.requests + 1,
            },
            PageView::Page { issues, next } => ListingView {
                position: match next {
                    Some(url) => Position::Next(url),
                    None => Position::Done,
                },
                issues: s.issues + retained(issues),
                requests: s.requests + 1,
            },
        },
    }
}

/// The traversal reached from `s` once `outcomes` have been taken in, in
/// order.
pub open spec fn after(s: ListingView, outcomes: Seq<PageView>) -> ListingView
    decreases outcomes.len(),
{
    if outcomes.len() == 0 {
        s
    } else {
        step(after(s, outcomes.drop_last()), outcomes.last())
    }
}

/// The entries that one outcome contributes.
pub open spec fn contribution(outcome: PageView) -> Seq<Issue> {
    match outcome {
        PageView::Failed => Seq::empty(),
        PageView::Page { issues, next } => retained(issues),
    }
}

/// The retained entries of all `outcomes`, page after page.
pub open spec fn collected(outcomes: Seq<PageView>) -> Seq<Issue>
    decreases outcomes.len(),
{
    if outcomes.len() == 0 {
        Seq::empty()
    } else {
        collected(outcomes.drop_last()) + contribution(outcomes.last())
    }
}

/// The sum, over `outcomes`, of the number of entries that each retains.
pub open spec fn retained_count(outcomes: Seq<PageView>) -> nat
    decreases outcomes.len(),
{
    if outcomes.len() == 0 {
        0
    } else {
        retained_count(outcomes.drop_last()) + contribution(outcomes.last()).len()
    }
}

/// Whether `outcomes` are the pages of a listing that was delivered whole:
/// at least one page, every request answered with a page, each page but the
/// last naming the page that follows, and the last naming none.
pub open spec fn is_whole_listing(outcomes: Seq<PageView>) -> bool {
    &&& outcomes.len() > 0
    &&& forall|k: int| 0 <= k < outcomes.len() ==> (#[trigger] outcomes[k]) is Page
    &&& forall|k: int| 0 <= k < outcomes.len() - 1 ==> (#[trigger] outcomes[k])->next is Some
    &&& outcomes.last()->next is None
}

/// Whatever comes back, and in whatever order, a traversal collects no pull
/// request.
pub proof fn lemma_collects_no_pull_request(outcomes: Seq<PageView>, i: int)
    requires
        0 <= i < after(start(), outcomes).issues.len(),
    ensures
        !after(start(), outcomes).issues[i]@.is_pull_request,
    decreases outcomes.len(),
{
    if outcomes.len() > 0 {
        let before = after(start(), outcomes.drop_last());
        if !(before.position is Done) {
            if i < before.issues.len() {
                lemma_collects_no_pull_request(outcomes.drop_last(), i);
            } else {
                if outcomes.last() is Page {
                    outcomes.last()->issues.lemma_filter_pred(
                        not_pull_request(),
                        i - before.issues.len(),
                    );
                }
            }
        } else {
            lemma_collects_no_pull_request(outcomes.drop_last(), i);
        }
    }
}

/// The number of the sum is the number of the entries.
pub proof fn lemma_collected_count(outcomes: Seq<PageView>)
    ensures
        collected(outcomes).len() == retained_count(outcomes),
    decreases outcomes.len(),
{
    if outcomes.len() > 0 {
        lemma_collected_count(outcomes.drop_last());
    }
}

/// Pages are visited one after the other, each at the address that the page
/// before it named. Before its `k`-th request (counted from zero) a traversal
/// of a whole listing has had exactly `k` requests answered, holds what the
/// pages before retained, and asks for the first page where `k` is zero and
/// else for the page that response `k - 1` named.
pub proof fn lemma_traversal_in_order(outcomes: Seq<PageView>, k: int)
    requires
        is_whole_listing(outcomes),
        0 <= k < outcomes.len(),
    ensures
        after(start(), outcomes.take(k)).requests == k,
        after(start(), outcomes.take(k)).issues == collected(outcomes.take(k)),
        after(start(), outcomes.take(k)).position == (if k == 0 {
            Position::First
        } else {
            Position::Next(outcomes[k - 1]->next->0)
        }),
    decreases k,
{
    let seen = outcomes.take(k);
    if k > 0 {
        lemma_traversal_in_order(outcomes, k - 1);
        assert(seen.drop_last() =~= outcomes.take(k - 1));
        assert(seen.last() == outcomes[k - 1]);
    } else {
        assert(collected(seen) =~= Seq::<Issue>::empty());
    }
}

/// A traversal of a whole listing ends with its last page, after exactly
/// one request for each page. It then holds the retained entries of every
/// page, in page order, and their number is the sum of the numbers that the
/// pages retain.
pub proof fn lemma_traversal_collects_all(outcomes: Seq<PageView>)
    requires
        is_whole_listing(outcomes),
    ensures
        after(start(), outcomes).position is Done,
        after(start(), outcomes).requests == outcomes.len(),
        after(start(), outcomes).issues == collected(outcomes),
        after(start(), outcomes).issues.len() == retained_count(outcomes),
{
    let k = outcomes.len() - 1;
    lemma_traversal_in_order(outcomes, k);
    assert(outcomes.drop_last() =~= outcomes.take(k));
    lemma_collected_count(outcomes);
}

/// A failed request ends the traversal at once, and what was collected
/// before it stays: later outcomes change nothing.
pub proof fn lemma_failure_ends_traversal(s: ListingView, later: Seq<PageView>)
    ensures
        after(step(s, PageView::Failed), later).position is Done,
        after(step(s, PageView::Failed), later).issues == s.issues,
    decreases later.len(),
{
    if later.len() > 0 {
        lemma_failure_ends_traversal(s, later.drop_last());
    }
}

enum Cursor {
    First,
    Next(String),
    Done,
}

impl Cursor {
    spec fn position(self) -> Position {
        match self {
            Cursor::First => Position::First,
            Cursor::Next(url) => Position::Next(url@),
            Cursor::Done => Position::Done,
        }
    }
}

/// A traversal of the issue listing of one repository.
pub struct IssueListing {
    cursor: Cursor,
    issues: Vec<Issue>,
    requests: Ghost<nat>,
}

impl View for IssueListing {
    type V = ListingView;

    closed spec fn view(&self) -> ListingView {
        ListingView {
            position: self.cursor.position(),
            issues: self.issues@,
            requests: self.requests@,
        }
    }
}

impl IssueListing {
    #[verifier::type_invariant]
    spec fn only_issues(&self) -> bool {
        forall|i: int| 0 <= i < self.issues.len() ==> !(#[trigger] self.issues[i])@.is_pull_request
    }

    /// A traversal that has not asked for anything yet.
    pub fn new() -> (listing: Self)
        ensures
            listing@ == start(),
    {
        IssueListing { cursor: Cursor::First, issues: Vec::new(), requests: Ghost(0) }
    }

    /// Whether the traversal has ended.
    pub fn is_done(&self) -> (done: bool)
        ensures
            done == (self@.position is Done),
    {
        match self.cursor {
            Cursor::Done => true,
            _ => false,
        }
    }

    /// The request to send next, and `None` once the traversal has ended.
    pub fn next_request(&self, api: &GithubApi) -> (request: Option<ApiRequest>)
        ensures
            match self@.position {
                Position::First => request matches Some(r) && r.method == Method::Get && r.url@
                    == first_page_url(api@.owner, api@.repository) && header_pairs(r.headers@)
                    == request_headers(api@.token, api@.user_agent),
                Position::Next(url) => request matches Some(r) && r.method == Method::Get && r.url@
                    == url && header_pairs(r.headers@) == request_headers(
                    api@.token,
                    api@.user_agent,
                ),
                Position::Done => request is None,
            },
    {
        match &self.cursor {
            Cursor::First => Some(api.issues_request(None)),
            Cursor::Next(url) => Some(api.issues_request(Some(url.clone()))),
            Cursor::Done => None,
        }
    }

    /// Takes in what came back for the request that `next_request` gave.
    pub fn on_page(&mut self, api: &GithubApi, outcome: PageOutcome)
        ensures
            final(self)@ == step(old(self)@, outcome@),
    {
        proof {
            use_type_invariant(&*self);
        }
        if self.is_done() {
            return ;
        }
        self.requests = Ghost((self.requests@ + 1) as nat);
        match outcome {
            PageOutcome::Failed => {
                self.cursor = Cursor::Done;
            },
            PageOutcome::Page { issues, headers } => {
                self.cursor =
                match api.construct_new_url(&headers) {
                    Some(url) => Cursor::Next(url),
                    None => Cursor::Done,
                };
                let mut kept = retain_issues(issues);
                let mut all: Vec<Issue> = Vec::new();
                core::mem::swap(&mut all, &mut self.issues);
                all.append(&mut kept);
                core::mem::swap(&mut all, &mut self.issues);
            },
        }
    }

    /// The issues collected, in page order and, within a page, in the order
    /// of the page. None of them is a pull request.
    pub fn into_issues(self) -> (issues: Vec<Issue>)
        ensures
            issues@ == self@.issues,
            forall|i: int| 0 <= i < issues.len() ==> !(#[trigger] issues[i])@.is_pull_request,
    {
        proof {
            use_type_invariant(&self);
        }
        self.issues
    }
}

} // verus!
