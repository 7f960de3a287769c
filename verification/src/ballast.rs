//! The ballast pool: filler records that are written ahead of the large
//! records and deleted one by one, each just before a large record is
//! written, so that the store has a page of the right size to reuse.

use crate::select::indices;
use crate::store::{puts, Op};
use crate::table::Table;
use vstd::prelude::*;

verus! {

/// A broken rule of the workload's own bookkeeping. None of them can be
/// recovered from: the run ends.
#[derive(Clone, Copy, Debug, PartialEq, Eq, Structural)]
pub enum ProtocolViolation {
    /// A ballast record was to be consumed and none is left.
    PoolExhausted,
    /// The pool was to be filled a second time.
    PoolNotEmpty,
    /// A record that was to be deleted was not in the store.
    RecordMissing { table: Table, index: u64 },
    /// The store's answer does not belong to the operation that was asked
    /// of it.
    UnexpectedEvent,
}

/// How far the pool has been used.
#[derive(Clone, Copy, Debug, PartialEq, Eq, Structural)]
pub enum PoolState {
    /// Every record of the pool is in the store.
    Reserved,
    /// Some records of the pool have been deleted.
    PartiallyConsumed,
}

/// What a ballast manager holds.
pub struct Pool {
    /// The number of records that the pool was filled with.
    pub count: nat,
    /// The size of each of them in bytes.
    pub value_size: usize,
    /// The number of records that have been consumed: those with the lowest
    /// indices.
    pub consumed: nat,
}

impl Pool {
    pub open spec fn wf(self) -> bool {
        self.consumed <= self.count <= u64::MAX
    }

    pub open spec fn state(self) -> PoolState {
        if self.consumed == 0 {
            PoolState::Reserved
        } else {
            PoolState::PartiallyConsumed
        }
    }

    /// The number of records that are left to consume.
    pub open spec fn remaining(self) -> nat {
        (self.count - self.consumed) as nat
    }

    /// The puts that fill the pool, in ascending order of the index.
    pub open spec fn fill(self) -> Seq<Op> {
        puts(Table::Ballast, indices(self.count), self.value_size)
    }
}

/// The bookkeeping of the ballast pool. The manager alone decides which
/// ballast record is written or deleted next.
pub struct BallastManager {
    count: u64,
    value_size: usize,
    consumed: u64,
}

impl View for BallastManager {
    type V = Pool;

    closed spec fn view(&self) -> Pool {
        Pool {
            count: self.count as nat,
            value_size: self.value_size,
            consumed: self.consumed as nat,
        }
    }
}

impl BallastManager {
    #[verifier::type_invariant]
    spec fn inv(self) -> bool {
        self.consumed <= self.count
    }

    /// A manager whose pool has not been filled.
    pub fn new() -> (manager: BallastManager)
        ensures
            manager@ == (Pool { count: 0, value_size: 0, consumed: 0 }),
            manager@.wf(),
    {
        BallastManager { count: 0, value_size: 0, consumed: 0 }
    }

    /// Reserves a pool of `count` records of `value_size` bytes each. The
    /// pool is filled once: where it holds or has held records, nothing
    /// changes and the violation is reported.
    pub fn insert_pool(&mut self, count: u64, value_size: usize) -> (reserved: Result<
        (),
        ProtocolViolation,
    >)
        ensures
            final(self)@.wf(),
            old(self)@.count == 0 ==> reserved is Ok && final(self)@ == (Pool {
                count: count as nat,
                value_size,
                consumed: 0,
            }),
            old(self)@.count != 0 ==> reserved == Err::<(), ProtocolViolation>(
                ProtocolViolation::PoolNotEmpty,
            ) && final(self)@ == old(self)@,
    {
        proof {
            use_type_invariant(&*self);
        }
        if self.count != 0 {
            return Err(ProtocolViolation::PoolNotEmpty);
        }
        *self = BallastManager { count, value_size, consumed: 0 };
        Ok(())
    }

    /// The put that writes the record `index` of the pool.
    pub fn pool_put(&self, index: u64) -> (op: Op)
        requires
            index < self@.count,
        ensures
            op == self@.fill()[index as int],
    {
        Op::Put { table: Table::Ballast, index, size: self.value_size }
    }

    /// Takes the oldest record that is left out of the pool and hands back
    /// the deletion that removes it from the store. With no record left,
    /// nothing changes and the violation is reported.
    pub fn consume_one(&mut self) -> (deletion: Result<Op, ProtocolViolation>)
        ensures
            final(self)@.wf(),
            old(self)@.remaining() > 0 ==> deletion == Ok::<Op, ProtocolViolation>(
                Op::Delete { table: Table::Ballast, index: old(self)@.consumed as u64 },
            ) && final(self)@ == (Pool {
                consumed: old(self)@.consumed + 1,
                ..old(self)@
            }),
            old(self)@.remaining() == 0 ==> deletion == Err::<Op, ProtocolViolation>(
                ProtocolViolation::PoolExhausted,
            ) && final(self)@ == old(self)@,
    {
        proof {
            use_type_invariant(&*self);
        }
        if self.consumed == self.count {
            return Err(ProtocolViolation::PoolExhausted);
        }
        let index = self.consumed;
        *self = BallastManager {
            count: self.count,
            value_size: self.value_size,
            consumed: index + 1,
        };
        Ok(Op::Delete { table: Table::Ballast, index })
    }

    pub fn state(&self) -> (state: PoolState)
        ensures
            state == self@.state(),
    {
        if self.consumed == 0 {
            PoolState::Reserved
        } else {
            PoolState::PartiallyConsumed
        }
    }

    /// The number of records that are left to consume.
    pub fn remaining(&self) -> (left: u64)
        ensures
            left == self@.remaining(),
            self@.wf(),
    {
        proof {
            use_type_invariant(self);
        }
        self.count - self.consumed
    }

    /// The number of records that the pool was filled with.
    pub fn count(&self) -> (count: u64)
        ensures
            count == self@.count,
    {
        self.count
    }

    /// The size of a record of the pool in bytes.
    pub fn value_size(&self) -> (size: usize)
        ensures
            size == self@.value_size,
    {
        self.value_size
    }
}

/// Holds the store's answer to a deletion against the rule that every record
/// that the workload deletes is there to delete.
pub fn check_deleted(table: Table, index: u64, present: bool) -> (checked: Result<
    (),
    ProtocolViolation,
>)
    ensures
        present ==> checked is Ok,
        !present ==> checked == Err::<(), ProtocolViolation>(
            ProtocolViolation::RecordMissing { table, index },
        ),
{
    if present {
        Ok(())
    } else {
        Err(ProtocolViolation::RecordMissing { table, index })
    }
}

} // verus!
