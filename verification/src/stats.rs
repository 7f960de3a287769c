//! What the store tells of itself, and the lines in which the workload
//! reports it and its own progress.

use crate::text::{decimal, decimal_of, digit, digit_str};
use vstd::prelude::*;
use vstd::string::StringExecFns;

verus! {

/// A snapshot of the store's counters. It is read before and after the
/// phases and reported; nothing is decided by it.
#[derive(Clone, Copy, Debug, PartialEq, Eq, Structural)]
pub struct StatsSnapshot {
    /// The pages that the store can reuse.
    pub free_page_count: u64,
    pub tree_depth: u64,
    pub branch_page_count: u64,
    pub leaf_page_count: u64,
    pub overflow_page_count: u64,
    pub entry_count: u64,
}

/// The line that reports a snapshot.
pub open spec fn stats_text(stats: StatsSnapshot) -> Seq<char> {
    "Freelist: "@ + decimal(stats.free_page_count as nat) + ", Depth: "@ + decimal(
        stats.tree_depth as nat,
    ) + ", Branch Pages: "@ + decimal(stats.branch_page_count as nat) + ", Leaf Pages: "@
        + decimal(stats.leaf_page_count as nat) + ", Overflow Pages: "@ + decimal(
        stats.overflow_page_count as nat,
    ) + ", Entries: "@ + decimal(stats.entry_count as nat)
}

/// The line that reports a snapshot.
pub fn stats_line(stats: &StatsSnapshot) -> (line: String)
    ensures
        line@ == stats_text(*stats),
{
    let mut line = String::from_str("Freelist: ");
    line.append(decimal_of(stats.free_page_count).as_str());
    line.append(", Depth: ");
    line.append(decimal_of(stats.tree_depth).as_str());
    line.append(", Branch Pages: ");
    line.append(decimal_of(stats.branch_page_count).as_str());
    line.append(", Leaf Pages: ");
    line.append(decimal_of(stats.leaf_page_count).as_str());
    line.append(", Overflow Pages: ");
    line.append(decimal_of(stats.overflow_page_count).as_str());
    line.append(", Entries: ");
    line.append(decimal_of(stats.entry_count).as_str());
    line
}

/// Progress in thousandths as a percentage with one decimal place.
pub open spec fn percent_text(permille: nat) -> Seq<char> {
    decimal(permille / 10) + seq!['.'] + digit(permille % 10) + seq!['%']
}

/// Progress in thousandths as a percentage with one decimal place.
pub fn percent(permille: u32) -> (text: String)
    ensures
        text@ == percent_text(permille as nat),
{
    proof {
        reveal_strlit(".");
        reveal_strlit("%");
    }
    let whole: u64 = (permille / 10) as u64;
    let mut text = decimal_of(whole);
    text.append(".");
    assert("."@ =~= seq!['.']);
    text.append(digit_str(permille % 10));
    text.append("%");
    assert("%"@ =~= seq!['%']);
    text
}

} // verus!
