//! Ranking of a repository's open issues by the thumbs-up reactions they
//! received.
//!
//! The crate holds the decisions of the collection: which page of the issue
//! listing to ask for next, which issues of a page to keep, how a reaction
//! list is tallied, and how the tallies are ranked and rendered. Sending the
//! requests is left to the caller, who hands each response back as a plain
//! value.

pub mod api;
pub mod headers;
pub mod link;
pub mod listing;
pub mod model;
pub mod once;
pub mod ranking;
pub mod report;
pub mod tally;
pub mod text;
