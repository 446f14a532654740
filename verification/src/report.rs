//! The report as text.
//!
//! A heading with the time at which the report was made, an empty line, one
//! line for each entry of the ranking, and a last line with the number of
//! issues that were looked at.

use crate::ranking::RankedEntry;
use crate::text::{decimal, push_decimal};
use vstd::prelude::*;
use vstd::string::StringExecFns;

verus! {

/// The heading, for a time that is already written out.
pub open spec fn heading(timestamp: Seq<char>) -> Seq<char> {
    "*Updated on "@ + timestamp + " (UTC)*"@
}

/// The line of one entry: its place, the number of its issue, and its
/// upvotes.
pub open spec fn entry_line(entry: RankedEntry) -> Seq<char> {
    decimal(entry.rank as nat) + ". "@ + decimal(entry.issue_number as nat) + "# ("@ + decimal(
        entry.upvote_count as nat,
    ) + " \u{1f44d})"@
}

/// The lines of `entries`, each closed by a line feed.
pub open spec fn entry_lines(entries: Seq<RankedEntry>) -> Seq<char>
    decreases entries.len(),
{
    if entries.len() == 0 {
        Seq::empty()
    } else {
        entry_lines(entries.drop_last()) + entry_line(entries.last()) + "\n"@
    }
}

/// The last line: how many issues the listing retained.
pub open spec fn total_line(total: nat) -> Seq<char> {
    "Amount of issue: "@ + decimal(total)
}

/// The whole report.
pub open spec fn report(timestamp: Seq<char>, entries: Seq<RankedEntry>, total: nat) -> Seq<char> {
    heading(timestamp) + "\n\n"@ + entry_lines(entries) + total_line(total) + "\n"@
}

/// Writes the line of one entry, without a line feed.
pub fn render_entry(entry: &RankedEntry) -> (line: String)
    ensures
        line@ == entry_line(*entry),
{
    let mut line = String::new();
    push_decimal(&mut line, entry.rank);
    line.append(". ");
    push_decimal(&mut line, entry.issue_number);
    line.append("# (");
    push_decimal(&mut line, entry.upvote_count);
    line.append(" \u{1f44d})");
    assert(line@ =~= entry_line(*entry));
    line
}

/// Writes the report: the heading with `timestamp`, the lines of `entries`,
/// and the number of issues.
pub fn render_report(timestamp: &str, entries: &Vec<RankedEntry>, total_issues: usize) -> (text:
    String)
    ensures
        text@ == report(timestamp@, entries@, total_issues as nat),
{
    let mut text = String::from_str("*Updated on ");
    text.append(timestamp);
    text.append(" (UTC)*");
    text.append("\n\n");
    let ghost start = text@;
    for i in 0..entries.len()
        invariant
            text@ == start + entry_lines(entries@.take(i as int)),
    {
        proof {
            let seen = entries@.take(i + 1);
            assert(seen.drop_last() =~= entries@.take(i as int));
            assert(seen.last() == entries@[i as int]);
        }
        let line = render_entry(&entries[i]);
        text.append(line.as_str());
        text.append("\n");
        assert(text@ =~= start + entry_lines(entries@.take(i + 1)));
    }
    assert(entries@.take(entries@.len() as int) =~= entries@);
    text.append("Amount of issue: ");
    push_decimal(&mut text, total_issues);
    text.append("\n");
    assert(text@ =~= report(timestamp@, entries@, total_issues as nat));
    text
}

} // verus!
