//! The workload as a state machine. The driver decides what is asked of the
//! store next; whoever holds the store carries it out and comes back with
//! the store's answer.

use crate::ballast::{check_deleted, BallastManager, Pool, ProtocolViolation};
use crate::config::{Config, ConfigError};
use crate::keys::KeyCodec;
use crate::order::{ascending, is_ascending, lemma_ascending, lemma_ascending_unique, sort};
use crate::plan::{
    checkpoint,
    checkpoint_at,
    closes,
    lemma_following_advances,
    lemma_single_batch,
    opens,
    Phase,
};
use crate::select::{
    lemma_permutation_shape,
    lemma_subset_distinct,
    shuffled_indices,
    take_prefix,
};
use crate::store::Op;
use crate::table::Table;
use vstd::prelude::*;

verus! {

/// What came of the action that the driver asked for last.
#[derive(Clone, Copy, Debug, PartialEq, Eq, Structural)]
pub enum Event {
    /// It was carried out and there is nothing to say of it. This also
    /// opens the run, when nothing has been asked for yet.
    Ready,
    /// A base dataset was found and copied: the store holds the small
    /// records already.
    BaseReused,
    /// A deletion was carried out, and the record was or was not in the
    /// store.
    Deleted { present: bool },
    /// The store failed.
    Failed,
}

/// Why a run has ended before its last phase.
#[derive(Clone, Copy, Debug, PartialEq, Eq, Structural)]
pub enum Fault {
    /// The store failed. Nothing is tried again.
    Storage,
    /// The workload's own bookkeeping is broken.
    Protocol(ProtocolViolation),
}

/// One operation for the store, with all that is needed to carry it out.
#[derive(Debug)]
pub struct Step {
    pub op: Op,
    /// The namespace that holds the record.
    pub namespace: &'static str,
    /// The record's key there.
    pub key: Vec<u8>,
    /// Whether the record may be appended: its key is above all keys that
    /// were written before.
    pub append: bool,
    /// Whether a transaction is to be begun before the operation.
    pub begin: bool,
    /// Whether the transaction is to be committed after the operation.
    pub commit: bool,
    /// The progress to report after the operation, in thousandths of the
    /// phase.
    pub checkpoint: Option<u32>,
}

/// A step as plain values.
pub struct StepView {
    pub op: Op,
    pub namespace: Seq<char>,
    pub key: Seq<u8>,
    pub append: bool,
    pub begin: bool,
    pub commit: bool,
    pub checkpoint: Option<u32>,
}

impl View for Step {
    type V = StepView;

    open spec fn view(&self) -> StepView {
        StepView {
            op: self.op,
            namespace: self.namespace@,
            key: self.key@,
            append: self.append,
            begin: self.begin,
            commit: self.commit,
            checkpoint: self.checkpoint,
        }
    }
}

/// What the driver asks for.
#[derive(Debug)]
pub enum Action {
    /// A phase begins. Where `persist_base` is set, the store as it is now,
    /// with the small records written and deleted, is first to be kept as
    /// the base dataset of later runs.
    Enter { phase: Phase, persist_base: bool },
    /// An operation is to be carried out on the store.
    Run(Step),
    /// The run is over.
    Finish,
}

/// An action as plain values.
pub enum ActionView {
    Enter { phase: Phase, persist_base: bool },
    Run(StepView),
    Finish,
}

impl View for Action {
    type V = ActionView;

    open spec fn view(&self) -> ActionView {
        match self {
            Action::Enter { phase, persist_base } => ActionView::Enter {
                phase: *phase,
                persist_base: *persist_base,
            },
            Action::Run(step) => ActionView::Run(step@),
            Action::Finish => ActionView::Finish,
        }
    }
}

/// The small records to delete are distinct records that were inserted, as
/// many as the configuration asks for, and in ascending order where it asks
/// for that.
pub open spec fn doomed_ok(config: Config, doomed: Seq<u64>) -> bool {
    &&& doomed.no_duplicates()
    &&& forall|k: int| 0 <= k < doomed.len() ==> #[trigger] doomed[k] < config.small_values_to_insert
    &&& doomed.len() == (if config.delete_small {
        config.small_values_to_delete as nat
    } else {
        0
    })
    &&& config.sort_deletions ==> is_ascending(doomed)
}

/// The step at `position` of a phase.
pub open spec fn planned_step(
    config: Config,
    doomed: Seq<u64>,
    phase: Phase,
    position: nat,
) -> StepView {
    let ops = phase.ops(config, doomed);
    let op = ops[position as int];
    let codec = config.codec();
    let per = phase.ops_per_unit(config);
    let batch = phase.batch(config, ops.len());
    StepView {
        op,
        namespace: codec.namespace_name(op.table()),
        key: codec.key(op.table(), op.index()),
        append: codec.ascending() && op is Put,
        begin: opens(batch, position),
        commit: closes(batch, ops.len(), position),
        checkpoint: if (position + 1) % per == 0 {
            match checkpoint(phase.units(config, doomed.len()), (position + 1) / per) {
                Some(permille) => Some(permille as u32),
                None => None,
            }
        } else {
            None
        },
    }
}

/// Whether the event is an answer to what was asked for last: a deletion is
/// answered by what it found, the search for a base dataset by `Ready` or by
/// `BaseReused`, and everything else by `Ready`.
pub open spec fn answers(awaiting: Option<Op>, seeding: bool, event: Event) -> bool {
    match awaiting {
        Some(Op::Delete { .. }) => event is Deleted,
        _ => event is Ready || (seeding && event is BaseReused),
    }
}

/// The fault that an event brings to light: a failure of the store, an
/// answer to something that was not asked, or a deletion that found no
/// record.
pub open spec fn fault_of(awaiting: Option<Op>, seeding: bool, event: Event) -> Option<Fault> {
    if event is Failed {
        Some(Fault::Storage)
    } else if !answers(awaiting, seeding, event) {
        Some(Fault::Protocol(ProtocolViolation::UnexpectedEvent))
    } else {
        match (awaiting, event) {
            (Some(Op::Delete { table, index }), Event::Deleted { present: false }) => Some(
                Fault::Protocol(ProtocolViolation::RecordMissing { table, index }),
            ),
            _ => None,
        }
    }
}

/// Holds an event against what was asked for last: an operation, or,
/// where `seeding` is set, the search for a base dataset.
pub fn judge(awaiting: Option<Op>, seeding: bool, event: Event) -> (fault: Option<Fault>)
    ensures
        fault == fault_of(awaiting, seeding, event),
{
    match event {
        Event::Failed => Some(Fault::Storage),
        Event::BaseReused => match awaiting {
            None => if seeding {
                None
            } else {
                Some(Fault::Protocol(ProtocolViolation::UnexpectedEvent))
            },
            Some(Op::Put { .. }) => if seeding {
                None
            } else {
                Some(Fault::Protocol(ProtocolViolation::UnexpectedEvent))
            },
            Some(Op::Delete { .. }) => Some(Fault::Protocol(ProtocolViolation::UnexpectedEvent)),
        },
        Event::Ready => match awaiting {
            Some(Op::Delete { .. }) => Some(Fault::Protocol(ProtocolViolation::UnexpectedEvent)),
            _ => None,
        },
        Event::Deleted { present } => match awaiting {
            Some(Op::Delete { table, index }) => match check_deleted(table, index, present) {
                Ok(()) => None,
                Err(violation) => Some(Fault::Protocol(violation)),
            },
            _ => Some(Fault::Protocol(ProtocolViolation::UnexpectedEvent)),
        },
    }
}

/// The state of a run.
pub struct Run {
    pub config: Config,
    /// The indices of the small records to delete, in the order of their
    /// deletion.
    pub doomed: Seq<u64>,
    /// Whether a base dataset was found, so that the small records are not
    /// written again.
    pub reused: bool,
    pub phase: Phase,
    /// The number of operations of the phase that have been asked for.
    pub position: nat,
    /// The operation that was asked for last and is not answered yet.
    pub awaiting: Option<Op>,
    /// Why the run has ended, where it has ended early.
    pub fault: Option<Fault>,
}

impl Run {
    pub open spec fn wf(self) -> bool {
        &&& self.config.valid()
        &&& doomed_ok(self.config, self.doomed)
        &&& self.phase.enabled(self.config, self.reused)
        &&& self.reused ==> self.phase.ordinal() > Phase::SeedOrReuseBase.ordinal()
        &&& self.position <= self.ops().len()
    }

    /// The operations of the phase that the run is in.
    pub open spec fn ops(self) -> Seq<Op> {
        self.phase.ops(self.config, self.doomed)
    }

    /// The ballast pool as the run has left it.
    pub open spec fn pool(self) -> Pool {
        if !self.config.use_ballast || self.phase.ordinal() < Phase::InsertBallast.ordinal() {
            Pool { count: 0, value_size: 0, consumed: 0 }
        } else {
            Pool {
                count: self.config.ballast_values_to_insert as nat,
                value_size: self.config.ballast_value_size,
                consumed: match self.phase {
                    Phase::InsertLarge => (self.position + 1) / 2,
                    Phase::Done => self.config.large_values_to_insert as nat,
                    _ => 0,
                },
            }
        }
    }

    /// Why the run is over once the event has come in; `None` where it goes
    /// on. A run that has ended stays ended for the same reason.
    pub open spec fn verdict(self, event: Event) -> Option<Fault> {
        if self.fault is Some {
            self.fault
        } else {
            fault_of(self.awaiting, self.phase == Phase::SeedOrReuseBase, event)
        }
    }

    /// Whether the small records are in the store without having been
    /// written, once the event has come in.
    pub open spec fn reuses(self, event: Event) -> bool {
        self.reused || event is BaseReused
    }

    /// The phase that follows once the event has come in.
    pub open spec fn next_phase(self, event: Event) -> Phase {
        self.phase.following(self.config, self.reuses(event))
    }

    /// What a run that goes on asks for once the event has come in: the
    /// next operation of its phase, or the phase that follows when there is
    /// none left. The base dataset is to be kept when the run leaves the
    /// phases that have built it.
    pub open spec fn action(self, event: Event) -> ActionView {
        if self.phase != Phase::Done && self.position < self.ops().len() {
            ActionView::Run(planned_step(self.config, self.doomed, self.phase, self.position))
        } else if self.next_phase(event) == Phase::Done {
            ActionView::Finish
        } else {
            ActionView::Enter {
                phase: self.next_phase(event),
                persist_base: self.phase.seeds() && !self.next_phase(event).seeds(),
            }
        }
    }

    /// The run after the event.
    pub open spec fn after(self, event: Event) -> Run {
        if self.verdict(event) is Some {
            Run { fault: self.verdict(event), ..self }
        } else if self.phase != Phase::Done && self.position < self.ops().len() {
            Run {
                position: self.position + 1,
                awaiting: Some(self.ops()[self.position as int]),
                ..self
            }
        } else {
            Run {
                reused: self.reuses(event),
                phase: self.next_phase(event),
                position: 0,
                awaiting: None,
                ..self
            }
        }
    }
}

/// The driver of one run.
pub struct Driver {
    config: Config,
    codec: KeyCodec,
    doomed: Vec<u64>,
    reused: bool,
    phase: Phase,
    /// The number of records of the phase that are done with.
    unit: u64,
    /// Whether the ballast record for the next large record is consumed.
    half: bool,
    awaiting: Option<Op>,
    fault: Option<Fault>,
    ballast: BallastManager,
}

impl View for Driver {
    type V = Run;

    closed spec fn view(&self) -> Run {
        Run {
            config: self.config,
            doomed: self.doomed@,
            reused: self.reused,
            phase: self.phase,
            position: self.started(self.unit as nat) + (if self.half {
                1nat
            } else {
                0nat
            }),
            awaiting: self.awaiting,
            fault: self.fault,
        }
    }
}

impl Driver {
    /// The number of operations that the phase needs for `units` records.
    spec fn started(&self, units: nat) -> nat {
        if self.phase.ops_per_unit(self.config) == 2 {
            2 * units
        } else {
            units
        }
    }

    /// The driver's fields agree with each other and with the run that they
    /// stand for.
    pub closed spec fn wf(&self) -> bool {
        &&& self@.wf()
        &&& self.codec == self.config.codec()
        &&& self.ballast@ == self@.pool()
        &&& self.unit <= self.phase.units(self.config, self.doomed@.len())
        &&& self.half ==> self.phase == Phase::InsertLarge && self.config.use_ballast && self.unit
            < self.config.large_values_to_insert
    }

    /// A well-formed driver stands for a well-formed run, whose pool is the
    /// one that the driver's ballast manager holds.
    pub proof fn lemma_wf(&self)
        requires
            self.wf(),
        ensures
            self@.wf(),
            self.ballast_pool() == self@.pool(),
    {
    }

    /// The pool of the driver's ballast manager.
    pub closed spec fn ballast_pool(&self) -> Pool {
        self.ballast@
    }

    /// A driver for the configuration that deletes the small records with
    /// the given indices, in the given order.
    pub fn with_deletions(config: Config, doomed: Vec<u64>) -> (driver: Result<
        Driver,
        ConfigError,
    >)
        ensures
            match config.defect() {
                Some(error) => driver matches Err(e) && e == error,
                None if !doomed_ok(config, doomed@) => driver matches Err(e) && e
                    == ConfigError::BadDeletions,
                None => driver matches Ok(d) && d.wf() && d@ == (Run {
                    config,
                    doomed: doomed@,
                    reused: false,
                    phase: Phase::Init,
                    position: 0,
                    awaiting: None,
                    fault: None,
                }),
            },
    {
        match config.validate() {
            Err(error) => Err(error),
            Ok(()) => {
                if !deletions_ok(&config, &doomed) {
                    return Err(ConfigError::BadDeletions);
                }
                let codec = config.key_codec();
                let driver = Driver {
                    config,
                    codec,
                    doomed,
                    reused: false,
                    phase: Phase::Init,
                    unit: 0,
                    half: false,
                    awaiting: None,
                    fault: None,
                    ballast: BallastManager::new(),
                };
                assert(driver@.ops() =~= Seq::<Op>::empty());
                Ok(driver)
            },
        }
    }

    /// A driver for the configuration. The small records to delete are drawn
    /// at random, without replacement, from those that are inserted.
    pub fn new(config: Config) -> (driver: Result<Driver, ConfigError>)
        ensures
            match config.defect() {
                Some(error) => driver matches Err(e) && e == error,
                None => driver matches Ok(d) && d.wf() && d@.config == config && !d@.reused
                    && d@.phase == Phase::Init && d@.position == 0 && d@.awaiting is None
                    && d@.fault is None,
            },
    {
        match config.validate() {
            Err(error) => Err(error),
            Ok(()) => {
                let doomed = draw_deletions(&config);
                Driver::with_deletions(config, doomed)
            },
        }
    }

    /// The number of records that the phase handles.
    fn units_here(&self) -> (total: u64)
        requires
            self.wf(),
        ensures
            total == self.phase.units(self.config, self.doomed@.len()),
            self@.ops().len() == self.started(total as nat),
    {
        match self.phase {
            Phase::InsertSmall => self.config.small_values_to_insert,
            Phase::DeleteSmall => self.doomed.len() as u64,
            Phase::InsertBallast => self.config.ballast_values_to_insert,
            Phase::InsertLarge => self.config.large_values_to_insert,
            _ => 0,
        }
    }

    /// Takes in what came of the last action and decides on the next one.
    ///
    /// A failure of the store, an answer that does not belong to what was
    /// asked, and a deletion that found no record each end the run: the
    /// fault is handed back now and at every later call. Otherwise the next
    /// operation of the phase is handed out, or the phase that follows when
    /// none is left, or `Finish` after the last phase.
    pub fn step(&mut self, event: Event) -> (action: Result<Action, Fault>)
        requires
            old(self).wf(),
        ensures
            final(self).wf(),
            final(self)@ == old(self)@.after(event),
            match old(self)@.verdict(event) {
                Some(fault) => action matches Err(f) && f == fault,
                None => action matches Ok(a) && a@ == old(self)@.action(event),
            },
    {
        if let Some(fault) = self.fault {
            return Err(fault);
        }
        let seeding: bool = match self.phase {
            Phase::SeedOrReuseBase => true,
            _ => false,
        };
        if let Some(fault) = judge(self.awaiting, seeding, event) {
            self.fault = Some(fault);
            return Err(fault);
        }
        let total: u64 = self.units_here();
        if self.unit < total {
            let step = self.issue(total);
            Ok(Action::Run(step))
        } else {
            let reused: bool = match event {
                Event::BaseReused => true,
                _ => self.reused,
            };
            proof {
                lemma_done_follows_large(self.phase, self.config, reused);
                if self.phase != Phase::Done {
                    lemma_following_advances(self.phase, self.config, reused);
                }
            }
            let next = self.phase.next(&self.config, reused);
            let persist_base: bool = self.phase.is_seeding() && !next.is_seeding();
            if let Phase::InsertBallast = next {
                let reserved = self.ballast.insert_pool(
                    self.config.ballast_values_to_insert,
                    self.config.ballast_value_size,
                );
                assert(reserved is Ok);
            }
            self.reused = reused;
            self.phase = next;
            self.unit = 0;
            self.half = false;
            self.awaiting = None;
            match next {
                Phase::Done => Ok(Action::Finish),
                _ => Ok(Action::Enter { phase: next, persist_base }),
            }
        }
    }

    /// Hands out the next operation of the phase, of whose `total` records
    /// some are left.
    fn issue(&mut self, total: u64) -> (step: Step)
        requires
            old(self).wf(),
            old(self).fault is None,
            total == old(self).phase.units(old(self).config, old(self).doomed@.len()),
            old(self)@.ops().len() == old(self).started(total as nat),
            old(self).unit < total,
        ensures
            final(self).wf(),
            final(self)@ == (Run {
                position: old(self)@.position + 1,
                awaiting: Some(old(self)@.ops()[old(self)@.position as int]),
                ..old(self)@
            }),
            step@ == planned_step(
                old(self)@.config,
                old(self)@.doomed,
                old(self)@.phase,
                old(self)@.position,
            ),
            old(self)@.position < old(self)@.ops().len(),
    {
        let unit: u64 = self.unit;
        let paired: bool = match self.phase {
            Phase::InsertLarge => self.config.use_ballast,
            _ => false,
        };
        let ghost position = self@.position;
        let ghost ops = self@.ops();
        assert(position < ops.len());
        let consuming: bool = paired && !self.half;
        let op = match self.phase {
            Phase::InsertSmall => Op::Put {
                table: Table::Small,
                index: unit,
                size: self.config.small_value_size,
            },
            Phase::DeleteSmall => {
                assert(unit < self.doomed.len());
                let at: usize = unit as usize;
                Op::Delete { table: Table::Small, index: self.doomed[at] }
            },
            Phase::InsertBallast => self.ballast.pool_put(unit),
            _ => {
                if consuming {
                    match self.ballast.consume_one() {
                        Ok(op) => op,
                        Err(_) => {
                            proof {
                                assert(false);
                            }
                            Op::Delete { table: Table::Ballast, index: unit }
                        },
                    }
                } else {
                    Op::Put { table: Table::Large, index: unit, size: self.config.large_value_size }
                }
            },
        };
        assert(op == ops[position as int]) by {
            if self.phase == Phase::InsertLarge && paired {
                assert(position == 2 * unit + (if consuming {
                    0nat
                } else {
                    1nat
                }));
            } else {
                assert(position == unit);
            }
        }
        let (table, index) = match op {
            Op::Put { table, index, .. } => (table, index),
            Op::Delete { table, index } => (table, index),
        };
        let append = match op {
            Op::Put { .. } => self.codec.is_ascending(),
            Op::Delete { .. } => false,
        };
        let (begin, commit) = match self.phase {
            Phase::DeleteSmall => (
                unit % self.config.delete_chunk == 0,
                (unit + 1) % self.config.delete_chunk == 0 || unit + 1 == total,
            ),
            Phase::InsertLarge => (true, true),
            _ => (unit == 0, unit + 1 == total),
        };
        let checkpoint = if consuming {
            None
        } else {
            checkpoint_at(total, unit + 1)
        };
        let key = self.codec.encode(table, index);
        let namespace = self.codec.namespace(table);
        proof {
            if self.phase != Phase::DeleteSmall && self.phase != Phase::InsertLarge {
                lemma_single_batch(ops.len(), position);
            }
        }
        if consuming {
            self.half = true;
        } else {
            self.half = false;
            self.unit = unit + 1;
        }
        self.awaiting = Some(op);
        Step { op, namespace, key, append, begin, commit, checkpoint }
    }

    /// Whether a base dataset was found and copied.
    pub fn reused_base(&self) -> (reused: bool)
        ensures
            reused == self@.reused,
    {
        self.reused
    }

    pub fn phase(&self) -> (phase: Phase)
        ensures
            phase == self@.phase,
    {
        self.phase
    }

    pub fn config(&self) -> (config: &Config)
        ensures
            *config == self@.config,
    {
        &self.config
    }

    /// The indices of the small records to delete, in the order of their
    /// deletion.
    pub fn deletions(&self) -> (doomed: &Vec<u64>)
        ensures
            doomed@ == self@.doomed,
    {
        &self.doomed
    }

    /// Why the run has ended, where it has ended early.
    pub fn fault(&self) -> (fault: Option<Fault>)
        ensures
            fault == self@.fault,
    {
        self.fault
    }

    /// The manager of the ballast pool.
    pub fn ballast(&self) -> (ballast: &BallastManager)
        ensures
            ballast@ == self.ballast_pool(),
    {
        &self.ballast
    }
}

/// An ascending sequence without equal neighbours has no two equal
/// elements.
proof fn lemma_strictly_ascending(s: Seq<u64>)
    requires
        is_ascending(s),
        forall|i: int| 0 <= i < s.len() - 1 ==> s[i] != #[trigger] s[i + 1],
    ensures
        s.no_duplicates(),
{
    assert forall|i: int, j: int| 0 <= i < s.len() && 0 <= j < s.len() && i != j implies s[i]
        != s[j] by {
        let (lo, hi) = if i < j {
            (i, j)
        } else {
            (j, i)
        };
        assert(s[lo] != s[lo + 1]);
        assert(s[lo] <= s[lo + 1] <= s[hi]);
    }
}

/// Two sequences that hold the same elements, each as often as the other,
/// have equal elements both or neither.
proof fn lemma_same_duplicates(s: Seq<u64>, t: Seq<u64>)
    requires
        s.to_multiset() == t.to_multiset(),
        s.no_duplicates(),
    ensures
        t.no_duplicates(),
{
    s.lemma_multiset_has_no_duplicates();
    t.lemma_multiset_has_no_duplicates_conv();
}

/// Whether the small records that are named for deletion can be deleted
/// under the configuration.
pub fn deletions_ok(config: &Config, doomed: &Vec<u64>) -> (ok: bool)
    ensures
        ok == doomed_ok(*config, doomed@),
{
    let wanted: u64 = if config.delete_small {
        config.small_values_to_delete
    } else {
        0
    };
    if doomed.len() as u64 != wanted {
        return false;
    }
    let mut sorted = doomed.clone();
    sort(&mut sorted);
    proof {
        lemma_ascending(doomed@);
    }
    let mut i: usize = 0;
    while i < doomed.len()
        invariant
            i <= doomed@.len(),
            sorted@.len() == doomed@.len(),
            sorted@ == ascending(doomed@),
            sorted@.to_multiset() == doomed@.to_multiset(),
            is_ascending(sorted@),
            forall|k: int| 0 <= k < i ==> #[trigger] doomed@[k] < config.small_values_to_insert,
            forall|k: int| 0 <= k < i - 1 ==> sorted@[k] != #[trigger] sorted@[k + 1],
            config.sort_deletions ==> forall|k: int| 0 <= k < i ==> doomed@[k] == sorted@[k],
        decreases doomed@.len() - i,
    {
        if doomed[i] >= config.small_values_to_insert {
            return false;
        }
        if i > 0 && sorted[i - 1] == sorted[i] {
            proof {
                if doomed@.no_duplicates() {
                    lemma_same_duplicates(doomed@, sorted@);
                }
            }
            return false;
        }
        if config.sort_deletions && doomed[i] != sorted[i] {
            proof {
                if is_ascending(doomed@) {
                    lemma_ascending_unique(doomed@, doomed@);
                }
            }
            return false;
        }
        i += 1;
    }
    proof {
        lemma_strictly_ascending(sorted@);
        lemma_same_duplicates(sorted@, doomed@);
        if config.sort_deletions {
            assert(doomed@ =~= sorted@);
        }
    }
    true
}

/// Only the last phase is followed by the end of the run.
proof fn lemma_done_follows_large(phase: Phase, config: Config, reused: bool)
    ensures
        phase.following(config, reused) == Phase::Done ==> phase == Phase::InsertLarge || phase
            == Phase::Done,
        phase.following(config, reused) == Phase::InsertLarge && config.use_ballast ==> phase
            == Phase::InsertBallast,
        phase.following(config, reused) == Phase::InsertBallast ==> config.use_ballast
            && phase.ordinal() < Phase::InsertBallast.ordinal(),
        phase.following(config, reused).ordinal() >= phase.ordinal(),
{
    reveal_with_fuel(Phase::following, 7);
}

/// Draws the small records to delete: a prefix of a random order of those
/// that are inserted, sorted where the configuration asks for it.
pub fn draw_deletions(config: &Config) -> (doomed: Vec<u64>)
    requires
        config.valid(),
    ensures
        doomed_ok(*config, doomed@),
{
    if !config.delete_small {
        return Vec::new();
    }
    let order = shuffled_indices(config.small_values_to_insert);
    let wanted: usize = config.small_values_to_delete as usize;
    proof {
        lemma_permutation_shape(order@, config.small_values_to_insert as nat);
        lemma_subset_distinct(
            order@,
            config.small_values_to_insert as nat,
            config.small_values_to_delete as nat,
        );
    }
    match take_prefix(&order, wanted) {
        Ok(subset) => {
            let mut doomed = subset;
            if config.sort_deletions {
                sort(&mut doomed);
                proof {
                    lemma_ascending(subset@);
                }
            }
            doomed
        },
        Err(_) => {
            proof {
                assert(false);
            }
            Vec::new()
        },
    }
}

} // verus!
