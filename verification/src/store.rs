//! The operations that the workload asks of the store, and a model of what
//! the store then holds: a put inserts or overwrites one record, a deletion
//! removes one.

use crate::keys::{lemma_key_injective, KeyCodec};
use crate::table::Table;
use vstd::prelude::*;

verus! {

/// One operation on a record, named by its table and its index there.
#[derive(Clone, Copy, Debug, PartialEq, Eq, Structural)]
pub enum Op {
    /// Write a record of `size` zero bytes.
    Put { table: Table, index: u64, size: usize },
    /// Remove the record.
    Delete { table: Table, index: u64 },
}

impl Op {
    pub open spec fn table(self) -> Table {
        match self {
            Op::Put { table, .. } => table,
            Op::Delete { table, .. } => table,
        }
    }

    pub open spec fn index(self) -> u64 {
        match self {
            Op::Put { index, .. } => index,
            Op::Delete { index, .. } => index,
        }
    }
}

/// Where a record lies in the store: a namespace and a key in it.
pub struct Slot {
    pub namespace: Seq<char>,
    pub key: Seq<u8>,
}

/// What the store holds: for each slot in use, the size of the value there.
pub type Store = Map<Slot, nat>;

/// The slot of the record `index` of `table`.
pub open spec fn slot(codec: KeyCodec, table: Table, index: u64) -> Slot {
    Slot { namespace: codec.namespace_name(table), key: codec.key(table, index) }
}

/// The store after one operation.
pub open spec fn apply(store: Store, codec: KeyCodec, op: Op) -> Store {
    match op {
        Op::Put { table, index, size } => store.insert(slot(codec, table, index), size as nat),
        Op::Delete { table, index } => store.remove(slot(codec, table, index)),
    }
}

/// The store after the operations, the first one first.
pub open spec fn run(store: Store, codec: KeyCodec, ops: Seq<Op>) -> Store
    decreases ops.len(),
{
    if ops.len() == 0 {
        store
    } else {
        apply(run(store, codec, ops.drop_last()), codec, ops.last())
    }
}

/// Whether a deletion finds its record.
pub open spec fn finds(store: Store, codec: KeyCodec, table: Table, index: u64) -> bool {
    store.contains_key(slot(codec, table, index))
}

/// A put of `size` bytes for each of the indices, in their order.
pub open spec fn puts(table: Table, indices: Seq<u64>, size: usize) -> Seq<Op> {
    Seq::new(indices.len(), |k: int| Op::Put { table, index: indices[k], size })
}

/// A deletion for each of the indices, in their order.
pub open spec fn deletions(table: Table, indices: Seq<u64>) -> Seq<Op> {
    Seq::new(indices.len(), |k: int| Op::Delete { table, index: indices[k] })
}

/// The slot is that of one of the table's records with these indices.
pub open spec fn among(x: Slot, codec: KeyCodec, table: Table, indices: Seq<u64>) -> bool {
    exists|k: int| 0 <= k < indices.len() && x == #[trigger] slot(codec, table, indices[k])
}

/// The codec admits every one of the indices for the table.
pub open spec fn all_admitted(codec: KeyCodec, table: Table, indices: Seq<u64>) -> bool {
    forall|k: int| 0 <= k < indices.len() ==> codec.admits(table, #[trigger] indices[k])
}

/// Two records share a slot only if they are the same record.
pub proof fn lemma_slot_injective(codec: KeyCodec, t1: Table, i1: u64, t2: Table, i2: u64)
    requires
        codec.admits(t1, i1),
        codec.admits(t2, i2),
        slot(codec, t1, i1) == slot(codec, t2, i2),
    ensures
        t1 == t2,
        i1 == i2,
{
    lemma_key_injective(codec, t1, i1, t2, i2);
}

/// Putting records with distinct indices into a store that holds none of
/// them adds exactly these records: each is there afterwards with the size
/// that was put, what was there before is unchanged, and the store has grown
/// by the number of indices.
pub proof fn lemma_puts(
    store: Store,
    codec: KeyCodec,
    table: Table,
    indices: Seq<u64>,
    size: usize,
)
    requires
        store.dom().finite(),
        indices.no_duplicates(),
        all_admitted(codec, table, indices),
        forall|k: int|
            0 <= k < indices.len() ==> !store.contains_key(
                #[trigger] slot(codec, table, indices[k]),
            ),
    ensures
        ({
            let after = run(store, codec, puts(table, indices, size));
            &&& after.dom().finite()
            &&& after.dom().len() == store.dom().len() + indices.len()
            &&& forall|x: Slot|
                after.contains_key(x) <==> store.contains_key(x) || among(
                    x,
                    codec,
                    table,
                    indices,
                )
            &&& forall|x: Slot| store.contains_key(x) ==> after[x] == store[x]
            &&& forall|k: int|
                0 <= k < indices.len() ==> after[#[trigger] slot(codec, table, indices[k])]
                    == size as nat
        }),
    decreases indices.len(),
{
    let ops = puts(table, indices, size);
    let after = run(store, codec, ops);
    if indices.len() == 0 {
        assert(after == store);
    } else {
        let front = indices.drop_last();
        let last = indices.last();
        let n = front.len() as int;
        assert(ops.drop_last() =~= puts(table, front, size));
        assert(ops.last() == Op::Put { table, index: last, size });
        assert forall|k: int| 0 <= k < front.len() implies codec.admits(
            table,
            #[trigger] front[k],
        ) by {
            assert(front[k] == indices[k]);
        }
        assert forall|k: int| 0 <= k < front.len() implies !store.contains_key(
            #[trigger] slot(codec, table, front[k]),
        ) by {
            assert(front[k] == indices[k]);
        }
        lemma_puts(store, codec, table, front, size);
        let before = run(store, codec, puts(table, front, size));
        let x_last = slot(codec, table, last);
        assert(after == before.insert(x_last, size as nat));
        assert(indices[n] == last);
        assert(!before.contains_key(x_last)) by {
            if among(x_last, codec, table, front) {
                let k = choose|k: int|
                    0 <= k < front.len() && x_last == #[trigger] slot(codec, table, front[k]);
                assert(front[k] == indices[k]);
                lemma_slot_injective(codec, table, last, table, indices[k]);
            }
        }
        assert forall|x: Slot|
            after.contains_key(x) <==> store.contains_key(x) || among(
                x,
                codec,
                table,
                indices,
            ) by {
            if among(x, codec, table, front) {
                let k = choose|k: int|
                    0 <= k < front.len() && x == #[trigger] slot(codec, table, front[k]);
                assert(front[k] == indices[k]);
                assert(x == slot(codec, table, indices[k]));
            }
            if x == x_last {
                assert(x == slot(codec, table, indices[n]));
            }
            if among(x, codec, table, indices) {
                let k = choose|k: int|
                    0 <= k < indices.len() && x == #[trigger] slot(codec, table, indices[k]);
                if k < n {
                    assert(front[k] == indices[k]);
                    assert(x == slot(codec, table, front[k]));
                }
            }
        }
        assert forall|k: int| 0 <= k < indices.len() implies after[#[trigger] slot(
            codec,
            table,
            indices[k],
        )] == size as nat by {
            if k < n {
                assert(front[k] == indices[k]);
                assert(before[slot(codec, table, front[k])] == size as nat);
            }
        }
    }
}

/// Deleting records with distinct indices that the store holds removes
/// exactly these records: none of them is there afterwards, everything else
/// is unchanged, and the store has shrunk by the number of indices.
pub proof fn lemma_deletions(store: Store, codec: KeyCodec, table: Table, indices: Seq<u64>)
    requires
        store.dom().finite(),
        indices.no_duplicates(),
        all_admitted(codec, table, indices),
        forall|k: int|
            0 <= k < indices.len() ==> store.contains_key(
                #[trigger] slot(codec, table, indices[k]),
            ),
    ensures
        ({
            let after = run(store, codec, deletions(table, indices));
            &&& after.dom().finite()
            &&& after.dom().len() == store.dom().len() - indices.len()
            &&& forall|x: Slot|
                after.contains_key(x) <==> store.contains_key(x) && !among(
                    x,
                    codec,
                    table,
                    indices,
                )
            &&& forall|x: Slot| after.contains_key(x) ==> after[x] == store[x]
        }),
    decreases indices.len(),
{
    let ops = deletions(table, indices);
    let after = run(store, codec, ops);
    if indices.len() == 0 {
        assert(after == store);
    } else {
        let front = indices.drop_last();
        let last = indices.last();
        let n = front.len() as int;
        assert(ops.drop_last() =~= deletions(table, front));
        assert(ops.last() == Op::Delete { table, index: last });
        assert forall|k: int| 0 <= k < front.len() implies codec.admits(
            table,
            #[trigger] front[k],
        ) by {
            assert(front[k] == indices[k]);
        }
        assert forall|k: int| 0 <= k < front.len() implies store.contains_key(
            #[trigger] slot(codec, table, front[k]),
        ) by {
            assert(front[k] == indices[k]);
        }
        lemma_deletions(store, codec, table, front);
        let before = run(store, codec, deletions(table, front));
        let x_last = slot(codec, table, last);
        assert(after == before.remove(x_last));
        assert(indices[n] == last);
        assert(before.contains_key(x_last)) by {
            if among(x_last, codec, table, front) {
                let k = choose|k: int|
                    0 <= k < front.len() && x_last == #[trigger] slot(codec, table, front[k]);
                assert(front[k] == indices[k]);
                lemma_slot_injective(codec, table, last, table, indices[k]);
            }
        }
        assert forall|x: Slot|
            after.contains_key(x) <==> store.contains_key(x) && !among(
                x,
                codec,
                table,
                indices,
            ) by {
            if among(x, codec, table, front) {
                let k = choose|k: int|
                    0 <= k < front.len() && x == #[trigger] slot(codec, table, front[k]);
                assert(front[k] == indices[k]);
                assert(x == slot(codec, table, indices[k]));
            }
            if x == x_last {
                assert(x == slot(codec, table, indices[n]));
            }
            if among(x, codec, table, indices) {
                let k = choose|k: int|
                    0 <= k < indices.len() && x == #[trigger] slot(codec, table, indices[k]);
                if k < n {
                    assert(front[k] == indices[k]);
                    assert(x == slot(codec, table, front[k]));
                }
            }
        }
    }
}

} // verus!
