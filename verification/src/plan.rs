//! The phases of an experiment in their order, and for each phase the
//! operations that it asks of the store, how they are grouped into
//! transactions, and when progress is reported.

use crate::config::Config;
use crate::select::indices;
use crate::store::{deletions, puts, Op};
use crate::table::Table;
use vstd::prelude::*;

verus! {

/// A stage of the workload. The stages follow each other in the order in
/// which they stand here, and none is entered twice.
#[derive(Clone, Copy, Debug, PartialEq, Eq, Structural)]
pub enum Phase {
    Init,
    SeedOrReuseBase,
    InsertSmall,
    DeleteSmall,
    InsertBallast,
    InsertLarge,
    Done,
}

impl Phase {
    /// The place of the phase in the order of the phases.
    pub open spec fn ordinal(self) -> nat {
        match self {
            Phase::Init => 0,
            Phase::SeedOrReuseBase => 1,
            Phase::InsertSmall => 2,
            Phase::DeleteSmall => 3,
            Phase::InsertBallast => 4,
            Phase::InsertLarge => 5,
            Phase::Done => 6,
        }
    }

    /// Whether the phase is run: the small records are written and deleted
    /// only where no base dataset is reused, which holds them already; the
    /// deletions and the ballast only where the configuration asks for
    /// them.
    pub open spec fn enabled(self, config: Config, reused: bool) -> bool {
        match self {
            Phase::InsertSmall => !reused,
            Phase::DeleteSmall => config.delete_small && !reused,
            Phase::InsertBallast => config.use_ballast,
            _ => true,
        }
    }

    /// Whether the phase is one of those that build the base dataset.
    pub open spec fn seeds(self) -> bool {
        self == Phase::InsertSmall || self == Phase::DeleteSmall
    }

    /// The phase that stands next in the order, whether it runs or not.
    pub open spec fn successor(self) -> Phase {
        match self {
            Phase::Init => Phase::SeedOrReuseBase,
            Phase::SeedOrReuseBase => Phase::InsertSmall,
            Phase::InsertSmall => Phase::DeleteSmall,
            Phase::DeleteSmall => Phase::InsertBallast,
            Phase::InsertBallast => Phase::InsertLarge,
            Phase::InsertLarge => Phase::Done,
            Phase::Done => Phase::Done,
        }
    }

    /// The phase that runs after this one: the next in the order that is
    /// run.
    pub open spec fn following(self, config: Config, reused: bool) -> Phase
        decreases 6 - self.ordinal(),
    {
        if self == Phase::Done {
            Phase::Done
        } else if self.successor().enabled(config, reused) {
            self.successor()
        } else {
            self.successor().following(config, reused)
        }
    }

    /// The number of records that the phase writes or deletes, of which
    /// `doomed` are the small records to delete.
    pub open spec fn units(self, config: Config, doomed: nat) -> nat {
        match self {
            Phase::InsertSmall => config.small_values_to_insert as nat,
            Phase::DeleteSmall => doomed,
            Phase::InsertBallast => config.ballast_values_to_insert as nat,
            Phase::InsertLarge => config.large_values_to_insert as nat,
            _ => 0,
        }
    }

    /// The number of operations for each record: two where a ballast record
    /// is consumed ahead of each large record, else one.
    pub open spec fn ops_per_unit(self, config: Config) -> nat {
        if self == Phase::InsertLarge && config.use_ballast {
            2
        } else {
            1
        }
    }

    /// The operations of the phase in their order, where `doomed` are the
    /// indices of the small records to delete.
    pub open spec fn ops(self, config: Config, doomed: Seq<u64>) -> Seq<Op> {
        match self {
            Phase::InsertSmall => puts(
                Table::Small,
                indices(config.small_values_to_insert as nat),
                config.small_value_size,
            ),
            Phase::DeleteSmall => deletions(Table::Small, doomed),
            Phase::InsertBallast => puts(
                Table::Ballast,
                indices(config.ballast_values_to_insert as nat),
                config.ballast_value_size,
            ),
            Phase::InsertLarge => if config.use_ballast {
                swaps(config.large_values_to_insert as nat, config.large_value_size)
            } else {
                puts(
                    Table::Large,
                    indices(config.large_values_to_insert as nat),
                    config.large_value_size,
                )
            },
            _ => Seq::empty(),
        }
    }

    /// The most operations that share a transaction in the phase, given the
    /// number of its operations: the small records and the ballast are
    /// written in one transaction each, the deletions go in chunks, and every
    /// operation on or for a large record has a transaction of its own.
    pub open spec fn batch(self, config: Config, len: nat) -> nat {
        match self {
            Phase::DeleteSmall => config.delete_chunk as nat,
            Phase::InsertLarge => 1,
            _ => len,
        }
    }

    pub fn is_enabled(&self, config: &Config, reused: bool) -> (yes: bool)
        ensures
            yes == self.enabled(*config, reused),
    {
        match self {
            Phase::InsertSmall => !reused,
            Phase::DeleteSmall => config.delete_small && !reused,
            Phase::InsertBallast => config.use_ballast,
            _ => true,
        }
    }

    /// Whether the phase is one of those that build the base dataset.
    pub fn is_seeding(&self) -> (yes: bool)
        ensures
            yes == self.seeds(),
    {
        match self {
            Phase::InsertSmall => true,
            Phase::DeleteSmall => true,
            _ => false,
        }
    }

    /// The phase that runs after this one.
    pub fn next(&self, config: &Config, reused: bool) -> (phase: Phase)
        ensures
            phase == self.following(*config, reused),
    {
        let mut phase = *self;
        proof {
            reveal_with_fuel(Phase::following, 2);
        }
        loop
            invariant
                phase.following(*config, reused) == self.following(*config, reused),
            decreases 6 - phase.ordinal(),
        {
            if let Phase::Done = phase {
                return phase;
            }
            let candidate = match phase {
                Phase::Init => Phase::SeedOrReuseBase,
                Phase::SeedOrReuseBase => Phase::InsertSmall,
                Phase::InsertSmall => Phase::DeleteSmall,
                Phase::DeleteSmall => Phase::InsertBallast,
                Phase::InsertBallast => Phase::InsertLarge,
                _ => Phase::Done,
            };
            if candidate.is_enabled(config, reused) {
                return candidate;
            }
            phase = candidate;
        }
    }
}

/// For each of the first `count` large records, the deletion of the ballast
/// record of the same index and then the put of the large record.
pub open spec fn swaps(count: nat, size: usize) -> Seq<Op> {
    Seq::new(
        2 * count,
        |j: int|
            if j % 2 == 0 {
                Op::Delete { table: Table::Ballast, index: (j / 2) as u64 }
            } else {
                Op::Put { table: Table::Large, index: (j / 2) as u64, size }
            },
    )
}

/// Whether a transaction begins with the operation at `position`, where at
/// most `batch` operations share one.
pub open spec fn opens(batch: nat, position: nat) -> bool {
    batch == 0 || position % batch == 0
}

/// Whether a transaction ends with the operation at `position` of `len`.
pub open spec fn closes(batch: nat, len: nat, position: nat) -> bool {
    batch == 0 || (position + 1) % batch == 0 || position + 1 == len
}

/// Where a phase's operations all share one transaction, it begins with the
/// first of them and ends with the last.
pub proof fn lemma_single_batch(len: nat, position: nat)
    requires
        position < len,
    ensures
        opens(len, position) == (position == 0),
        closes(len, len, position) == (position + 1 == len),
{
    vstd::arithmetic::div_mod::lemma_small_mod(position, len);
    if position + 1 < len {
        vstd::arithmetic::div_mod::lemma_small_mod(position + 1, len);
    } else {
        vstd::arithmetic::div_mod::lemma_mod_self_0(len as int);
    }
}

/// The most records between two reports of progress: a tenth of them,
/// rounded up.
pub open spec fn stride(total: nat) -> nat {
    (total + 9) / 10
}

/// The progress that is reported once `done` of `total` records are
/// handled, in thousandths: a report is due after every full stride and
/// after the last record.
pub open spec fn checkpoint(total: nat, done: nat) -> Option<nat> {
    if 0 < done <= total && (done % stride(total) == 0 || done == total) {
        Some(done * 1000 / total)
    } else {
        None
    }
}

/// The phases are gone through forwards: the phase that follows stands
/// later in the order, it is one that is run, and only phases that are not
/// run are left out between the two.
pub proof fn lemma_following_advances(phase: Phase, config: Config, reused: bool)
    requires
        phase != Phase::Done,
    ensures
        phase.following(config, reused).ordinal() > phase.ordinal(),
        phase.following(config, reused).enabled(config, reused),
        forall|skipped: Phase|
            phase.ordinal() < skipped.ordinal() < phase.following(config, reused).ordinal()
                ==> !skipped.enabled(config, reused),
    decreases 6 - phase.ordinal(),
{
    if !phase.successor().enabled(config, reused) {
        lemma_following_advances(phase.successor(), config, reused);
    }
}

/// The run ends in `Done` and stays there.
pub proof fn lemma_done_is_final(config: Config, reused: bool)
    ensures
        Phase::Done.following(config, reused) == Phase::Done,
{
}

/// The report that is due once `done` of `total` records are handled.
pub fn checkpoint_at(total: u64, done: u64) -> (report: Option<u32>)
    ensures
        match checkpoint(total as nat, done as nat) {
            Some(permille) => report == Some(permille as u32) && permille <= 1000,
            None => report is None,
        },
{
    if done == 0 || done > total {
        return None;
    }
    let step: u64 = total / 10 + (if total % 10 == 0 {
        0
    } else {
        1
    });
    assert(step == stride(total as nat));
    if done % step == 0 || done == total {
        let permille: u128 = (done as u128) * 1000 / (total as u128);
        assert(permille <= 1000) by (nonlinear_arith)
            requires
                permille == (done as int) * 1000 / (total as int),
                0 < done <= total,
        ;
        Some(permille as u32)
    } else {
        None
    }
}

/// Progress is reported at least once in every stride of records.
pub proof fn lemma_checkpoint_every_stride(total: nat, start: nat)
    requires
        0 < total,
        start + stride(total) <= total,
    ensures
        exists|done: nat|
            start < done <= start + stride(total) && (#[trigger] checkpoint(total, done)) is Some,
{
    let s = stride(total);
    let done = ((start / s + 1) * s) as nat;
    assert(start < done <= start + s && done % s == 0) by (nonlinear_arith)
        requires
            s > 0,
            done == (start / s + 1) * s,
    ;
    assert(checkpoint(total, done) is Some);
}

/// The last record is reported as the whole.
pub proof fn lemma_checkpoint_at_end(total: nat)
    requires
        0 < total,
    ensures
        checkpoint(total, total) == Some(1000nat),
{
    assert(total * 1000 / total == 1000) by (nonlinear_arith)
        requires
            total > 0,
    ;
}

/// A report falls on one of the first ten multiples of the stride or on the
/// last record, so that no phase makes more than eleven of them.
pub proof fn lemma_checkpoint_is_multiple(total: nat, done: nat)
    requires
        checkpoint(total, done) is Some,
    ensures
        done == total || (exists|k: nat| 1 <= k <= 10 && done == #[trigger] (k * stride(total))),
{
    let s = stride(total);
    if done != total {
        let k = done / s;
        assert(done == k * s && 1 <= k <= 10) by (nonlinear_arith)
            requires
                s > 0,
                done % s == 0,
                0 < done <= total,
                k == done / s,
                total <= 10 * s,
        ;
    }
}

} // verus!
