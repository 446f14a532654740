//! The records that the remote API hands out.

use vstd::prelude::*;

verus! {

/// The marker that the issue listing sets on an entry that is a pull
/// request. Its presence is all that counts.
#[derive(Debug, Clone, PartialEq, Eq)]
pub struct PullRequest {}

/// One entry of the issue listing.
#[derive(Debug, Clone, PartialEq, Eq)]
pub struct Issue {
    /// The number that identifies the issue within its repository.
    pub number: usize,
    pub title: String,
    /// Present exactly where the entry is a pull request.
    pub pull_request: Option<PullRequest>,
}

/// An issue as a mathematical value.
pub struct IssueView {
    pub number: nat,
    pub title: Seq<char>,
    pub is_pull_request: bool,
}

impl View for Issue {
    type V = IssueView;

    open spec fn view(&self) -> IssueView {
        IssueView {
            number: self.number as nat,
            title: self.title@,
            is_pull_request: self.pull_request is Some,
        }
    }
}

impl Issue {
    /// Whether the entry is a pull request.
    pub fn is_pull_request(&self) -> (b: bool)
        ensures
            b == self@.is_pull_request,
    {
        self.pull_request.is_some()
    }
}

/// Who left a reaction.
#[derive(Debug, Clone, PartialEq, Eq)]
pub struct User {
    pub login: String,
}

/// One reaction to an issue.
#[derive(Debug, Clone, PartialEq, Eq)]
pub struct IssueReaction {
    /// The kind of the reaction, such as `+1`.
    pub content: String,
    pub user: User,
}

/// A reaction as a mathematical value.
pub struct ReactionView {
    pub content: Seq<char>,
    pub author_login: Seq<char>,
}

impl View for IssueReaction {
    type V = ReactionView;

    open spec fn view(&self) -> ReactionView {
        ReactionView { content: self.content@, author_login: self.user.login@ }
    }
}

/// The content of the reaction that counts as an upvote.
pub open spec fn positive_marker() -> Seq<char> {
    "+1"@
}

impl IssueReaction {
    /// Whether the reaction is an upvote.
    pub open spec fn is_upvote(&self) -> bool {
        self@.content == positive_marker()
    }
}

} // verus!
