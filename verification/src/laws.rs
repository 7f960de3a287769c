//! What the workload's operations do to a store that keeps its contract:
//! how many records it holds afterwards, and which.

use crate::config::Config;
use crate::driver::doomed_ok;
use crate::keys::KeyCodec;
use crate::order::ascending;
use crate::plan::{swaps, Phase};
use crate::select::{indices, is_permutation, lemma_subset_distinct};
use crate::store::{
    all_admitted,
    among,
    apply,
    deletions,
    finds,
    lemma_deletions,
    lemma_puts,
    lemma_slot_injective,
    puts,
    run,
    slot,
    Op,
    Slot,
    Store,
};
use crate::table::Table;
use vstd::prelude::*;

verus! {

/// The store that holds nothing.
pub open spec fn empty_store() -> Store {
    Map::empty()
}

/// The number of records in the store.
pub open spec fn records_in(store: Store) -> nat {
    store.dom().len()
}

/// The slot is that of a record of the table with an index from `lo` up to,
/// but not including, `hi`.
pub open spec fn in_range(x: Slot, codec: KeyCodec, table: Table, lo: nat, hi: nat) -> bool {
    exists|i: u64| lo <= i < hi && x == #[trigger] slot(codec, table, i)
}

/// The codec admits every index below `n` for the table.
pub open spec fn admits_below(codec: KeyCodec, table: Table, n: nat) -> bool {
    forall|i: u64| i < n ==> #[trigger] codec.admits(table, i)
}

/// Running one sequence of operations and then another is running the two
/// in a row.
pub proof fn lemma_run_concat(store: Store, codec: KeyCodec, first: Seq<Op>, second: Seq<Op>)
    ensures
        run(store, codec, first + second) == run(run(store, codec, first), codec, second),
    decreases second.len(),
{
    if second.len() == 0 {
        assert(first + second =~= first);
    } else {
        assert((first + second).drop_last() =~= first + second.drop_last());
        assert((first + second).last() == second.last());
        lemma_run_concat(store, codec, first, second.drop_last());
    }
}

/// After records with distinct indices are put into an empty store, the
/// store holds exactly as many records as there are indices, and each of
/// them is found with the size that was put.
pub proof fn lemma_distinct_puts_count(
    codec: KeyCodec,
    table: Table,
    records: Seq<u64>,
    size: usize,
)
    requires
        records.no_duplicates(),
        all_admitted(codec, table, records),
    ensures
        ({
            let after = run(empty_store(), codec, puts(table, records, size));
            &&& after.dom().finite()
            &&& records_in(after) == records.len()
            &&& forall|k: int|
                0 <= k < records.len() ==> finds(after, codec, table, #[trigger] records[k])
                    && after[slot(codec, table, records[k])] == size as nat
        }),
{
    lemma_puts(empty_store(), codec, table, records, size);
    let after = run(empty_store(), codec, puts(table, records, size));
    assert forall|k: int| 0 <= k < records.len() implies finds(
        after,
        codec,
        table,
        #[trigger] records[k],
    ) && after[slot(codec, table, records[k])] == size as nat by {
        assert(among(slot(codec, table, records[k]), codec, table, records));
    }
}

/// After records with distinct indices are put into an empty store and some
/// of them, each named once, are deleted again, the store holds as many
/// records as were put less those that were deleted. None of the deleted
/// records is found, and every other record that was put is found with the
/// size that was put.
pub proof fn lemma_deletions_count(
    codec: KeyCodec,
    table: Table,
    records: Seq<u64>,
    doomed: Seq<u64>,
    size: usize,
)
    requires
        records.no_duplicates(),
        all_admitted(codec, table, records),
        doomed.no_duplicates(),
        forall|k: int| 0 <= k < doomed.len() ==> records.contains(#[trigger] doomed[k]),
    ensures
        ({
            let after = run(
                empty_store(),
                codec,
                puts(table, records, size) + deletions(table, doomed),
            );
            &&& after.dom().finite()
            &&& doomed.len() <= records.len()
            &&& records_in(after) == records.len() - doomed.len()
            &&& forall|k: int|
                0 <= k < doomed.len() ==> !finds(after, codec, table, #[trigger] doomed[k])
            &&& forall|k: int|
                0 <= k < records.len() && !doomed.contains(#[trigger] records[k]) ==> finds(
                    after,
                    codec,
                    table,
                    records[k],
                ) && after[slot(codec, table, records[k])] == size as nat
        }),
{
    let filled = run(empty_store(), codec, puts(table, records, size));
    let after = run(filled, codec, deletions(table, doomed));
    lemma_run_concat(empty_store(), codec, puts(table, records, size), deletions(table, doomed));
    lemma_distinct_puts_count(codec, table, records, size);
    assert forall|k: int| 0 <= k < doomed.len() implies codec.admits(
        table,
        #[trigger] doomed[k],
    ) && filled.contains_key(slot(codec, table, doomed[k])) by {
        let j = choose|j: int| 0 <= j < records.len() && records[j] == doomed[k];
        assert(finds(filled, codec, table, records[j]));
    }
    lemma_deletions(filled, codec, table, doomed);
    assert forall|k: int| 0 <= k < doomed.len() implies !finds(
        after,
        codec,
        table,
        #[trigger] doomed[k],
    ) by {
        assert(among(slot(codec, table, doomed[k]), codec, table, doomed));
    }
    assert forall|k: int|
        0 <= k < records.len() && !doomed.contains(#[trigger] records[k]) implies finds(
        after,
        codec,
        table,
        records[k],
    ) && after[slot(codec, table, records[k])] == size as nat by {
        let x = slot(codec, table, records[k]);
        assert(finds(filled, codec, table, records[k]));
        if among(x, codec, table, doomed) {
            let j = choose|j: int|
                0 <= j < doomed.len() && x == #[trigger] slot(codec, table, doomed[j]);
            lemma_slot_injective(codec, table, records[k], table, doomed[j]);
            assert(doomed.contains(doomed[j]));
        }
    }
}

/// The first `m` indices of an order, as they stand or ascending.
pub open spec fn drawn(order: Seq<u64>, m: nat, sorted: bool) -> Seq<u64> {
    if sorted {
        ascending(order.subrange(0, m as int))
    } else {
        order.subrange(0, m as int)
    }
}

/// The store after the records `0..n` of a table are put into an empty
/// store and the doomed ones are deleted.
pub open spec fn thinned(
    codec: KeyCodec,
    table: Table,
    n: nat,
    doomed: Seq<u64>,
    size: usize,
) -> Store {
    run(empty_store(), codec, puts(table, indices(n), size) + deletions(table, doomed))
}

/// After the records `0..n` are put into an empty store and the first `m`
/// of a permutation of `0..n` are deleted, in the order of the permutation
/// or in ascending order, the store holds `n - m` records. None of the
/// deleted records is found, and every other record is found with the size
/// that was put.
pub proof fn lemma_random_deletions_count(
    codec: KeyCodec,
    table: Table,
    n: nat,
    order: Seq<u64>,
    m: nat,
    sorted: bool,
    size: usize,
)
    requires
        n <= u64::MAX + 1,
        admits_below(codec, table, n),
        is_permutation(order, n),
        m <= n,
    ensures
        drawn(order, m, sorted).len() == m,
        records_in(thinned(codec, table, n, drawn(order, m, sorted), size)) == n - m,
        forall|k: int|
            0 <= k < m ==> !finds(
                thinned(codec, table, n, drawn(order, m, sorted), size),
                codec,
                table,
                #[trigger] drawn(order, m, sorted)[k],
            ),
        forall|i: u64|
            i < n && !drawn(order, m, sorted).contains(i) ==> #[trigger] finds(
                thinned(codec, table, n, drawn(order, m, sorted), size),
                codec,
                table,
                i,
            ),
        forall|i: u64|
            i < n && !drawn(order, m, sorted).contains(i) ==> thinned(
                codec,
                table,
                n,
                drawn(order, m, sorted),
                size,
            )[#[trigger] slot(codec, table, i)] == size as nat,
{
    lemma_subset_distinct(order, n, m);
    let doomed = drawn(order, m, sorted);
    let records = indices(n);
    let after = thinned(codec, table, n, doomed, size);
    assert(doomed.len() == m);
    assert(doomed.no_duplicates());
    assert(records.no_duplicates());
    assert forall|k: int| 0 <= k < records.len() implies codec.admits(
        table,
        #[trigger] records[k],
    ) by {
        assert(records[k] == k as u64);
    }
    assert forall|k: int| 0 <= k < doomed.len() implies records.contains(#[trigger] doomed[k]) by {
        assert(doomed[k] < n);
        assert(records[doomed[k] as int] == doomed[k]);
    }
    lemma_deletions_count(codec, table, records, doomed, size);
    assert forall|i: u64| i < n && !doomed.contains(i) implies #[trigger] finds(
        after,
        codec,
        table,
        i,
    ) by {
        assert(records[i as int] == i);
        assert(!doomed.contains(records[i as int]));
    }
    assert forall|i: u64| i < n && !doomed.contains(i) implies after[#[trigger] slot(
        codec,
        table,
        i,
    )] == size as nat by {
        assert(records[i as int] == i);
        assert(!doomed.contains(records[i as int]));
    }
}

/// The slots of the records `0..n` of a table are those of its records with
/// an index in that range.
proof fn lemma_among_indices(x: Slot, codec: KeyCodec, table: Table, n: nat)
    requires
        n <= u64::MAX + 1,
    ensures
        among(x, codec, table, indices(n)) <==> in_range(x, codec, table, 0, n),
{
    let records = indices(n);
    if among(x, codec, table, records) {
        let k = choose|k: int| 0 <= k < records.len() && x == #[trigger] slot(
            codec,
            table,
            records[k],
        );
        assert(records[k] == k as u64);
        assert(x == slot(codec, table, k as u64));
    }
    if in_range(x, codec, table, 0, n) {
        let i = choose|i: u64| 0 <= i < n && x == #[trigger] slot(codec, table, i);
        assert(records[i as int] == i);
        assert(x == slot(codec, table, records[i as int]));
    }
}

/// The store holds the ballast records from `consumed` up to `pool`, the
/// first `consumed` large records, and nothing else.
pub open spec fn swapped(store: Store, codec: KeyCodec, pool: nat, consumed: nat) -> bool {
    &&& store.dom().finite()
    &&& records_in(store) == pool
    &&& forall|x: Slot|
        store.contains_key(x) <==> in_range(x, codec, Table::Ballast, consumed, pool) || in_range(
            x,
            codec,
            Table::Large,
            0,
            consumed,
        )
}

/// Deleting the oldest ballast record that is left and putting the next
/// large record moves the store on by one.
proof fn lemma_swap_step(store: Store, codec: KeyCodec, pool: nat, consumed: nat, size: usize)
    requires
        consumed < pool <= u64::MAX + 1,
        admits_below(codec, Table::Ballast, pool),
        admits_below(codec, Table::Large, consumed + 1),
        swapped(store, codec, pool, consumed),
    ensures
        finds(store, codec, Table::Ballast, consumed as u64),
        swapped(
            store.remove(slot(codec, Table::Ballast, consumed as u64)).insert(
                slot(codec, Table::Large, consumed as u64),
                size as nat,
            ),
            codec,
            pool,
            consumed + 1,
        ),
{
    let c = consumed;
    let gone = slot(codec, Table::Ballast, c as u64);
    let come = slot(codec, Table::Large, c as u64);
    let between = store.remove(gone);
    let after = between.insert(come, size as nat);
    assert(in_range(gone, codec, Table::Ballast, c, pool));
    assert(store.contains_key(gone));
    assert(!store.contains_key(come)) by {
        if in_range(come, codec, Table::Ballast, c, pool) {
            let i = choose|i: u64|
                c <= i < pool && come == #[trigger] slot(codec, Table::Ballast, i);
            lemma_slot_injective(codec, Table::Large, c as u64, Table::Ballast, i);
        }
        if in_range(come, codec, Table::Large, 0, c) {
            let i = choose|i: u64| 0 <= i < c && come == #[trigger] slot(codec, Table::Large, i);
            lemma_slot_injective(codec, Table::Large, c as u64, Table::Large, i);
        }
    }
    assert(between.dom() == store.dom().remove(gone));
    assert(after.dom() == between.dom().insert(come));
    assert(records_in(after) == pool);
    assert forall|x: Slot|
        after.contains_key(x) <==> in_range(x, codec, Table::Ballast, c + 1, pool) || in_range(
            x,
            codec,
            Table::Large,
            0,
            c + 1,
        ) by {
        lemma_swap_membership(x, codec, pool, c);
    }
}

/// How the ranges of the records that the store holds move with one swap.
proof fn lemma_swap_membership(x: Slot, codec: KeyCodec, pool: nat, c: nat)
    requires
        c < pool <= u64::MAX + 1,
        admits_below(codec, Table::Ballast, pool),
        admits_below(codec, Table::Large, c + 1),
    ensures
        in_range(x, codec, Table::Ballast, c + 1, pool) <==> in_range(
            x,
            codec,
            Table::Ballast,
            c,
            pool,
        ) && x != slot(codec, Table::Ballast, c as u64),
        in_range(x, codec, Table::Large, 0, c + 1) <==> in_range(x, codec, Table::Large, 0, c) || x
            == slot(codec, Table::Large, c as u64),
        in_range(x, codec, Table::Large, 0, c) ==> x != slot(codec, Table::Ballast, c as u64),
{
    let gone = slot(codec, Table::Ballast, c as u64);
    let come = slot(codec, Table::Large, c as u64);
    if in_range(x, codec, Table::Ballast, c, pool) {
        let i = choose|i: u64| c <= i < pool && x == #[trigger] slot(codec, Table::Ballast, i);
        if i != c {
            assert(in_range(x, codec, Table::Ballast, c + 1, pool));
        }
    }
    if in_range(x, codec, Table::Ballast, c + 1, pool) {
        let i = choose|i: u64| c + 1 <= i < pool && x == #[trigger] slot(codec, Table::Ballast, i);
        assert(in_range(x, codec, Table::Ballast, c, pool));
        if x == gone {
            lemma_slot_injective(codec, Table::Ballast, i, Table::Ballast, c as u64);
        }
    }
    if in_range(x, codec, Table::Large, 0, c) {
        let i = choose|i: u64| 0 <= i < c && x == #[trigger] slot(codec, Table::Large, i);
        assert(in_range(x, codec, Table::Large, 0, c + 1));
        if x == gone {
            lemma_slot_injective(codec, Table::Large, i, Table::Ballast, c as u64);
        }
    }
    if in_range(x, codec, Table::Large, 0, c + 1) {
        let i = choose|i: u64| 0 <= i < c + 1 && x == #[trigger] slot(codec, Table::Large, i);
        if i != c {
            assert(in_range(x, codec, Table::Large, 0, c));
        }
    }
    if x == come {
        assert(in_range(x, codec, Table::Large, 0, c + 1));
    }
}

/// After a pool of `pool` ballast records is put into an empty store and,
/// for each of the first `count` large records, the oldest ballast record
/// that is left is deleted and the large record is put, the store holds as
/// many records as the pool had: the ballast records from `count` on and
/// the first `count` large records.
pub proof fn lemma_ballast_swaps(
    codec: KeyCodec,
    pool: nat,
    count: nat,
    ballast_size: usize,
    large_size: usize,
)
    requires
        count <= pool <= u64::MAX + 1,
        admits_below(codec, Table::Ballast, pool),
        admits_below(codec, Table::Large, count),
    ensures
        swapped(
            run(
                run(empty_store(), codec, puts(Table::Ballast, indices(pool), ballast_size)),
                codec,
                swaps(count, large_size),
            ),
            codec,
            pool,
            count,
        ),
    decreases count,
{
    let records = indices(pool);
    let filled = run(empty_store(), codec, puts(Table::Ballast, records, ballast_size));
    let after = run(filled, codec, swaps(count, large_size));
    if count == 0 {
        assert(swaps(0, large_size) =~= Seq::<Op>::empty());
        assert(after == filled);
        assert forall|k: int| 0 <= k < records.len() implies codec.admits(
            Table::Ballast,
            #[trigger] records[k],
        ) by {
            assert(records[k] == k as u64);
        }
        lemma_puts(empty_store(), codec, Table::Ballast, records, ballast_size);
        assert forall|x: Slot|
            after.contains_key(x) <==> in_range(x, codec, Table::Ballast, count, pool)
                || in_range(x, codec, Table::Large, 0, count) by {
            lemma_among_indices(x, codec, Table::Ballast, pool);
        }
    } else {
        let c = (count - 1) as nat;
        lemma_ballast_swaps(codec, pool, c, ballast_size, large_size);
        let before = run(filled, codec, swaps(c, large_size));
        let all = swaps(count, large_size);
        let most = all.drop_last();
        assert(most.drop_last() =~= swaps(c, large_size));
        assert(all.last() == Op::Put { table: Table::Large, index: c as u64, size: large_size });
        assert(most.last() == Op::Delete { table: Table::Ballast, index: c as u64 });
        assert(run(filled, codec, most) == apply(before, codec, most.last()));
        assert(after == apply(run(filled, codec, most), codec, all.last()));
        lemma_swap_step(before, codec, pool, c, large_size);
    }
}

/// Every deletion of a ballast record finds its record, and at the end the
/// consumed ballast records are gone and the large records are there.
pub proof fn lemma_ballast_swaps_found(
    codec: KeyCodec,
    pool: nat,
    count: nat,
    ballast_size: usize,
    large_size: usize,
)
    requires
        count <= pool <= u64::MAX + 1,
        admits_below(codec, Table::Ballast, pool),
        admits_below(codec, Table::Large, count),
    ensures
        ({
            let filled = run(
                empty_store(),
                codec,
                puts(Table::Ballast, indices(pool), ballast_size),
            );
            let after = run(filled, codec, swaps(count, large_size));
            &&& records_in(after) == pool
            &&& forall|i: u64| i < count ==> !#[trigger] finds(after, codec, Table::Ballast, i)
            &&& forall|i: u64| i < count ==> #[trigger] finds(after, codec, Table::Large, i)
            &&& forall|i: u64|
                count <= i < pool ==> #[trigger] finds(after, codec, Table::Ballast, i)
            &&& forall|earlier: nat|
                earlier < count ==> finds(
                    #[trigger] run(filled, codec, swaps(earlier, large_size)),
                    codec,
                    Table::Ballast,
                    earlier as u64,
                )
        }),
{
    let filled = run(empty_store(), codec, puts(Table::Ballast, indices(pool), ballast_size));
    let after = run(filled, codec, swaps(count, large_size));
    lemma_ballast_swaps(codec, pool, count, ballast_size, large_size);
    assert forall|i: u64| i < count implies #[trigger] finds(after, codec, Table::Large, i) by {
        assert(in_range(slot(codec, Table::Large, i), codec, Table::Large, 0, count));
    }
    assert forall|i: u64| i < count implies !#[trigger] finds(after, codec, Table::Ballast, i) by {
        let x = slot(codec, Table::Ballast, i);
        if in_range(x, codec, Table::Ballast, count, pool) {
            let j = choose|j: u64|
                count <= j < pool && x == #[trigger] slot(codec, Table::Ballast, j);
            lemma_slot_injective(codec, Table::Ballast, i, Table::Ballast, j);
        }
        if in_range(x, codec, Table::Large, 0, count) {
            let j = choose|j: u64| 0 <= j < count && x == #[trigger] slot(codec, Table::Large, j);
            lemma_slot_injective(codec, Table::Ballast, i, Table::Large, j);
        }
    }
    assert forall|i: u64| count <= i < pool implies #[trigger] finds(
        after,
        codec,
        Table::Ballast,
        i,
    ) by {
        assert(in_range(slot(codec, Table::Ballast, i), codec, Table::Ballast, count, pool));
    }
    assert forall|earlier: nat| earlier < count implies finds(
        #[trigger] run(filled, codec, swaps(earlier, large_size)),
        codec,
        Table::Ballast,
        earlier as u64,
    ) by {
        lemma_ballast_swaps(codec, pool, earlier, ballast_size, large_size);
        assert(in_range(
            slot(codec, Table::Ballast, earlier as u64),
            codec,
            Table::Ballast,
            earlier,
            pool,
        ));
    }
}

/// The codec of a configuration that can be run admits every record that
/// the run writes.
pub proof fn lemma_valid_config_admits(config: Config)
    requires
        config.valid(),
    ensures
        admits_below(config.codec(), Table::Small, config.small_values_to_insert as nat),
        admits_below(config.codec(), Table::Ballast, config.ballast_values_to_insert as nat),
        admits_below(config.codec(), Table::Large, config.large_values_to_insert as nat),
{
}

/// Once a run has written its small records into an empty store, the store
/// holds as many records as the configuration asks for.
pub proof fn lemma_small_records_inserted(config: Config, doomed: Seq<u64>)
    requires
        config.valid(),
    ensures
        records_in(run(empty_store(), config.codec(), Phase::InsertSmall.ops(config, doomed)))
            == config.small_values_to_insert,
{
    lemma_valid_config_admits(config);
    let records = indices(config.small_values_to_insert as nat);
    assert forall|k: int| 0 <= k < records.len() implies config.codec().admits(
        Table::Small,
        #[trigger] records[k],
    ) by {
        assert(records[k] == k as u64);
    }
    lemma_distinct_puts_count(config.codec(), Table::Small, records, config.small_value_size);
}

/// Once a run has written its small records into an empty store and
/// deleted those that it was to delete, the store holds the difference of
/// the two numbers. Every deletion has removed a record: none of the deleted
/// records is found, and all the others are.
pub proof fn lemma_small_records_deleted(config: Config, doomed: Seq<u64>)
    requires
        config.valid(),
        doomed_ok(config, doomed),
    ensures
        ({
            let after = run(
                empty_store(),
                config.codec(),
                Phase::InsertSmall.ops(config, doomed) + Phase::DeleteSmall.ops(config, doomed),
            );
            &&& records_in(after) == config.small_values_to_insert - doomed.len()
            &&& forall|k: int|
                0 <= k < doomed.len() ==> !finds(
                    after,
                    config.codec(),
                    Table::Small,
                    #[trigger] doomed[k],
                )
            &&& forall|i: u64|
                i < config.small_values_to_insert && !doomed.contains(i) ==> #[trigger] finds(
                    after,
                    config.codec(),
                    Table::Small,
                    i,
                )
        }),
{
    lemma_valid_config_admits(config);
    let codec = config.codec();
    let records = indices(config.small_values_to_insert as nat);
    assert forall|k: int| 0 <= k < records.len() implies codec.admits(
        Table::Small,
        #[trigger] records[k],
    ) by {
        assert(records[k] == k as u64);
    }
    assert forall|k: int| 0 <= k < doomed.len() implies records.contains(#[trigger] doomed[k]) by {
        assert(records[doomed[k] as int] == doomed[k]);
    }
    lemma_deletions_count(codec, Table::Small, records, doomed, config.small_value_size);
    let after = run(
        empty_store(),
        codec,
        Phase::InsertSmall.ops(config, doomed) + Phase::DeleteSmall.ops(config, doomed),
    );
    assert forall|i: u64|
        i < config.small_values_to_insert && !doomed.contains(i) implies #[trigger] finds(
        after,
        codec,
        Table::Small,
        i,
    ) by {
        assert(records[i as int] == i);
        assert(!doomed.contains(records[i as int]));
    }
}

/// Once a run with ballast has filled its pool in an empty store and
/// written its large records, the store holds as many records as the pool
/// had. For each large record the oldest ballast record that was left is
/// gone, and the large record is there; the rest of the pool is there too.
pub proof fn lemma_large_records_swapped(config: Config, doomed: Seq<u64>)
    requires
        config.valid(),
        config.use_ballast,
    ensures
        ({
            let after = run(
                run(empty_store(), config.codec(), Phase::InsertBallast.ops(config, doomed)),
                config.codec(),
                Phase::InsertLarge.ops(config, doomed),
            );
            &&& records_in(after) == config.ballast_values_to_insert
            &&& forall|i: u64|
                i < config.large_values_to_insert ==> !#[trigger] finds(
                    after,
                    config.codec(),
                    Table::Ballast,
                    i,
                )
            &&& forall|i: u64|
                i < config.large_values_to_insert ==> #[trigger] finds(
                    after,
                    config.codec(),
                    Table::Large,
                    i,
                )
            &&& forall|i: u64|
                config.large_values_to_insert <= i < config.ballast_values_to_insert
                    ==> #[trigger] finds(after, config.codec(), Table::Ballast, i)
        }),
{
    lemma_valid_config_admits(config);
    lemma_ballast_swaps_found(
        config.codec(),
        config.ballast_values_to_insert as nat,
        config.large_values_to_insert as nat,
        config.ballast_value_size,
        config.large_value_size,
    );
}

} // verus!
