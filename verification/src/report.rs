//! The text of a latency summary: one entry for each quantile, the entries
//! separated by commas.

use crate::quantile::{quantile, summarize};
use crate::text::{digit, digit_str};
use itertools::Itertools;
use vstd::prelude::*;
use vstd::string::StringExecFns;

verus! {

/// The text that std's `Debug` gives for a `Duration` of so many
/// nanoseconds.
pub uninterp spec fn duration_text(nanos: u64) -> Seq<char>;

/// Formats a `std::time::Duration` of `nanos` nanoseconds with its `Debug`
/// impl. The text depends on the number alone; the contract gives it a name
/// and claims nothing of its shape.
#[verifier::external_body]
fn duration_debug(nanos: u64) -> (text: String)
    ensures
        text@ == duration_text(nanos),
{
    format!("{:?}", std::time::Duration::from_nanos(nanos))
}

/// The parts in order, with the separator between each two neighbours.
pub open spec fn joined(parts: Seq<Seq<char>>, separator: Seq<char>) -> Seq<char>
    decreases parts.len(),
{
    if parts.len() == 0 {
        Seq::empty()
    } else if parts.len() == 1 {
        parts[0]
    } else {
        joined(parts.drop_last(), separator) + separator + parts.last()
    }
}

/// Calls `join` of `itertools::Itertools` on the strings. The method writes
/// the first element and then, for each further one, the separator and the
/// element; a string is written as it is. An empty sequence gives the empty
/// string.
#[verifier::external_body]
fn join(parts: &Vec<String>, separator: &str) -> (text: String)
    ensures
        text@ == joined(parts.deep_view(), separator@),
{
    parts.iter().join(separator)
}

/// The quantile as a decimal fraction of one, without trailing zeros:
/// `0.5` for 500 thousandths, `0.999` for 999, `1` for 1000.
pub open spec fn label(permille: nat) -> Seq<char> {
    if permille >= 1000 {
        seq!['1']
    } else if permille == 0 {
        seq!['0']
    } else if permille % 100 == 0 {
        seq!['0', '.'] + digit(permille / 100)
    } else if permille % 10 == 0 {
        seq!['0', '.'] + digit(permille / 100) + digit(permille / 10 % 10)
    } else {
        seq!['0', '.'] + digit(permille / 100) + digit(permille / 10 % 10) + digit(permille % 10)
    }
}

/// What stands for a quantile that no sample gives.
pub open spec fn not_available() -> Seq<char> {
    seq!['N', '/', 'A']
}

/// One entry of a summary: the quantile's label, a colon and a blank, and
/// the duration's text, or `N/A` where there is no duration.
pub open spec fn entry(permille: nat, text: Option<Seq<char>>) -> Seq<char> {
    label(permille) + seq![':', ' '] + match text {
        Some(t) => t,
        None => not_available(),
    }
}

/// The text of a quantile's value.
pub open spec fn value_text(value: Option<u64>) -> Option<Seq<char>> {
    match value {
        Some(nanos) => Some(duration_text(nanos)),
        None => None,
    }
}

/// The entries of a summary of the samples at the given quantiles.
pub open spec fn entries(samples: Seq<u64>, at: Seq<u32>) -> Seq<Seq<char>> {
    Seq::new(
        at.len(),
        |i: int| entry(at[i] as nat, value_text(quantile(samples, at[i] as nat))),
    )
}

/// The summary of the samples at the given quantiles.
pub open spec fn summary(samples: Seq<u64>, at: Seq<u32>) -> Seq<char> {
    joined(entries(samples, at), seq![',', ' '])
}

/// Without samples every quantile is reported as not available.
pub proof fn lemma_no_samples_not_available(at: Seq<u32>)
    ensures
        forall|i: int| 0 <= i < at.len() ==> quantile(Seq::empty(), #[trigger] at[i] as nat) is None,
        forall|i: int|
            0 <= i < at.len() ==> #[trigger] entries(Seq::empty(), at)[i] == label(at[i] as nat)
                + seq![':', ' '] + not_available(),
{
}

/// The label of a quantile.
pub fn label_of(permille: u32) -> (text: String)
    ensures
        text@ == label(permille as nat),
{
    proof {
        reveal_strlit("0");
        reveal_strlit("1");
        reveal_strlit("0.");
    }
    if permille >= 1000 {
        let text = String::from_str("1");
        assert(text@ =~= label(permille as nat));
        text
    } else if permille == 0 {
        let text = String::from_str("0");
        assert(text@ =~= label(permille as nat));
        text
    } else {
        let mut text = String::from_str("0.");
        assert(text@ =~= seq!['0', '.']);
        text.append(digit_str(permille / 100));
        if permille % 100 != 0 {
            text.append(digit_str(permille / 10 % 10));
            if permille % 10 != 0 {
                text.append(digit_str(permille % 10));
            }
        }
        assert(text@ =~= label(permille as nat));
        text
    }
}

/// One entry of a summary, from the quantile and the text of its value.
pub fn render_entry(permille: u32, text: Option<String>) -> (line: String)
    ensures
        line@ == entry(
            permille as nat,
            match text {
                Some(t) => Some(t@),
                None => None,
            },
        ),
{
    proof {
        reveal_strlit(": ");
        reveal_strlit("N/A");
    }
    let mut line = label_of(permille);
    line.append(": ");
    assert(": "@ =~= seq![':', ' ']);
    match text {
        Some(t) => {
            line.append(t.as_str());
        },
        None => {
            line.append("N/A");
            assert("N/A"@ =~= not_available());
        },
    }
    line
}

/// The summary of the samples at the given quantiles, none of which is above
/// a thousand thousandths.
pub fn calculate_percentiles(samples: &Vec<u64>, at: &Vec<u32>) -> (text: String)
    requires
        forall|i: int| 0 <= i < at@.len() ==> at@[i] <= 1000,
    ensures
        text@ == summary(samples@, at@),
{
    let values = summarize(samples, at);
    let mut lines: Vec<String> = Vec::with_capacity(at.len());
    let mut i: usize = 0;
    while i < at.len()
        invariant
            i <= at@.len(),
            values@ == crate::quantile::quantiles(samples@, at@),
            lines.deep_view() == entries(samples@, at@.subrange(0, i as int)),
        decreases at@.len() - i,
    {
        let text = match values[i] {
            Some(nanos) => Some(duration_debug(nanos)),
            None => None,
        };
        let line = render_entry(at[i], text);
        let ghost before = lines.deep_view();
        lines.push(line);
        i += 1;
        assert(lines.deep_view() =~= before.push(line@));
        assert(lines.deep_view() =~= entries(samples@, at@.subrange(0, i as int)));
    }
    assert(at@.subrange(0, i as int) =~= at@);
    proof {
        reveal_strlit(", ");
        assert(", "@ =~= seq![',', ' ']);
    }
    join(&lines, ", ")
}

} // verus!
