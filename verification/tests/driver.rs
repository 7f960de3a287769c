use ballast_bench::ballast::{PoolState, ProtocolViolation};
use ballast_bench::config::{Config, ConfigError, Layout};
use ballast_bench::driver::{
    deletions_ok, draw_deletions, judge, Action, Driver, Event, Fault, Step,
};
use ballast_bench::keys::KeyCodec;
use ballast_bench::plan::Phase;
use ballast_bench::store::Op;
use ballast_bench::table::Table;
use std::collections::HashMap;

/// A store in memory that keeps the contract of the real one.
struct MemoryStore {
    committed: HashMap<(String, Vec<u8>), usize>,
    pending: Option<HashMap<(String, Vec<u8>), usize>>,
    commits: usize,
    last_key: HashMap<String, Vec<u8>>,
}

fn memory_store() -> MemoryStore {
    MemoryStore { committed: HashMap::new(), pending: None, commits: 0, last_key: HashMap::new() }
}

fn count(store: &MemoryStore, namespace: &str) -> usize {
    store.committed.keys().filter(|slot| slot.0 == namespace).count()
}

fn size_of(store: &MemoryStore, namespace: &str, key: &[u8]) -> Option<usize> {
    store.committed.get(&(namespace.to_string(), key.to_vec())).copied()
}

fn carry_out(store: &mut MemoryStore, step: &Step) -> Event {
    if step.begin {
        assert!(store.pending.is_none());
        store.pending = Some(store.committed.clone());
    }
    let slot = (step.namespace.to_string(), step.key.clone());
    let event = {
        let records = store.pending.as_mut().unwrap();
        match step.op {
            Op::Put { size, .. } => {
                if step.append {
                    if let Some(last) = store.last_key.get(step.namespace) {
                        assert!(*last < step.key);
                    }
                }
                store.last_key.insert(step.namespace.to_string(), step.key.clone());
                records.insert(slot, size);
                Event::Ready
            }
            Op::Delete { .. } => Event::Deleted { present: records.remove(&slot).is_some() },
        }
    };
    if step.commit {
        store.committed = store.pending.take().unwrap();
        store.commits += 1;
    }
    event
}

fn small_config(layout: Layout) -> Config {
    Config {
        use_lifo: true,
        use_ballast: true,
        delete_small: true,
        sort_deletions: false,
        layout,
        small_values_to_insert: 3,
        small_value_size: 8,
        small_values_to_delete: 2,
        large_values_to_insert: 2,
        large_value_size: 64,
        ballast_values_to_insert: 2,
        ballast_value_size: 32,
        delete_chunk: 1,
    }
}

fn run_to_end(driver: &mut Driver, store: &mut MemoryStore) -> Vec<Phase> {
    let mut entered = Vec::new();
    let mut event = Event::Ready;
    loop {
        match driver.step(event).unwrap() {
            Action::Enter { phase, .. } => {
                entered.push(phase);
                event = Event::Ready;
            }
            Action::Run(step) => event = carry_out(store, &step),
            Action::Finish => return entered,
        }
    }
}

fn tagged(table: Table, index: u64) -> Vec<u8> {
    KeyCodec::Tagged.encode(table, index)
}

fn put_step(table: Table, index: u64, size: usize, begin: bool, commit: bool) -> (Op, bool, bool) {
    (Op::Put { table, index, size }, begin, commit)
}

fn delete_step(table: Table, index: u64, begin: bool, commit: bool) -> (Op, bool, bool) {
    (Op::Delete { table, index }, begin, commit)
}

#[test]
fn the_steps_of_a_small_run() {
    let config = small_config(Layout::MultiTable);
    let mut driver = Driver::with_deletions(config, vec![2, 0]).ok().unwrap();
    assert_eq!(driver.phase(), Phase::Init);
    assert_eq!(driver.deletions(), &vec![2, 0]);
    let mut store = memory_store();
    let mut seen: Vec<(Op, bool, bool)> = Vec::new();
    let mut reports: Vec<(Op, u32)> = Vec::new();
    let mut entered: Vec<(Phase, bool)> = Vec::new();
    let mut event = Event::Ready;
    loop {
        match driver.step(event).unwrap() {
            Action::Enter { phase, persist_base } => {
                assert_eq!(driver.phase(), phase);
                entered.push((phase, persist_base));
                event = Event::Ready;
            }
            Action::Run(step) => {
                let (table, index) = match step.op {
                    Op::Put { table, index, .. } => (table, index),
                    Op::Delete { table, index } => (table, index),
                };
                assert_eq!(step.namespace, table.as_str());
                assert_eq!(step.key, tagged(table, index));
                assert!(!step.append);
                if let Some(permille) = step.checkpoint {
                    reports.push((step.op, permille));
                }
                seen.push((step.op, step.begin, step.commit));
                event = carry_out(&mut store, &step);
            }
            Action::Finish => break,
        }
    }
    assert_eq!(
        entered,
        vec![
            (Phase::SeedOrReuseBase, false),
            (Phase::InsertSmall, false),
            (Phase::DeleteSmall, false),
            (Phase::InsertBallast, true),
            (Phase::InsertLarge, false),
        ]
    );
    assert_eq!(
        seen,
        vec![
            put_step(Table::Small, 0, 8, true, false),
            put_step(Table::Small, 1, 8, false, false),
            put_step(Table::Small, 2, 8, false, true),
            delete_step(Table::Small, 2, true, true),
            delete_step(Table::Small, 0, true, true),
            put_step(Table::Ballast, 0, 32, true, false),
            put_step(Table::Ballast, 1, 32, false, true),
            delete_step(Table::Ballast, 0, true, true),
            put_step(Table::Large, 0, 64, true, true),
            delete_step(Table::Ballast, 1, true, true),
            put_step(Table::Large, 1, 64, true, true),
        ]
    );
    assert_eq!(
        reports,
        vec![
            (Op::Put { table: Table::Small, index: 0, size: 8 }, 333),
            (Op::Put { table: Table::Small, index: 1, size: 8 }, 666),
            (Op::Put { table: Table::Small, index: 2, size: 8 }, 1000),
            (Op::Delete { table: Table::Small, index: 2 }, 500),
            (Op::Delete { table: Table::Small, index: 0 }, 1000),
            (Op::Put { table: Table::Ballast, index: 0, size: 32 }, 500),
            (Op::Put { table: Table::Ballast, index: 1, size: 32 }, 1000),
            (Op::Put { table: Table::Large, index: 0, size: 64 }, 500),
            (Op::Put { table: Table::Large, index: 1, size: 64 }, 1000),
        ]
    );
    assert_eq!(driver.phase(), Phase::Done);
    assert_eq!(driver.fault(), None);
    assert_eq!(store.commits, 8);
    assert_eq!(count(&store, "small"), 1);
    assert_eq!(size_of(&store, "small", &tagged(Table::Small, 1)), Some(8));
    assert_eq!(count(&store, "ballast"), 0);
    assert_eq!(count(&store, "large"), 2);
    assert!(matches!(driver.step(Event::Ready), Ok(Action::Finish)));
    assert!(matches!(driver.step(Event::Ready), Ok(Action::Finish)));
}

#[test]
fn a_thousand_small_records_and_four_hundred_deleted() {
    let mut config = Config::standard();
    config.small_values_to_insert = 1000;
    config.small_value_size = 2048;
    config.small_values_to_delete = 400;
    config.use_ballast = false;
    config.large_values_to_insert = 0;
    config.delete_chunk = 150;
    let mut driver = Driver::new(config).ok().unwrap();
    let mut store = memory_store();
    let mut event = Event::Ready;
    let mut after_insert = None;
    loop {
        match driver.step(event).unwrap() {
            Action::Enter { phase, .. } => {
                if phase == Phase::DeleteSmall {
                    after_insert = Some(count(&store, "small"));
                }
                event = Event::Ready;
            }
            Action::Run(step) => event = carry_out(&mut store, &step),
            Action::Finish => break,
        }
    }
    assert_eq!(after_insert, Some(1000));
    assert_eq!(count(&store, "small"), 600);
    let doomed = driver.deletions().clone();
    assert_eq!(doomed.len(), 400);
    for index in 0..1000u64 {
        let found = size_of(&store, "small", &tagged(Table::Small, index));
        if doomed.contains(&index) {
            assert_eq!(found, None);
        } else {
            assert_eq!(found, Some(2048));
        }
    }
    assert_eq!(store.commits, 1 + 3);
}

#[test]
fn fifty_ballast_records_make_room_for_fifty_large_ones() {
    let mut config = Config::standard();
    config.small_values_to_insert = 0;
    config.small_values_to_delete = 0;
    config.ballast_values_to_insert = 50;
    config.ballast_value_size = 300 * 1024;
    config.large_values_to_insert = 50;
    config.large_value_size = 300 * 1024;
    let mut driver = Driver::new(config).ok().unwrap();
    let mut store = memory_store();
    let mut event = Event::Ready;
    let mut pool_filled = None;
    loop {
        match driver.step(event).unwrap() {
            Action::Enter { phase, .. } => {
                if phase == Phase::InsertLarge {
                    pool_filled = Some(count(&store, "ballast"));
                    assert_eq!(driver.ballast().remaining(), 50);
                    assert_eq!(driver.ballast().state(), PoolState::Reserved);
                }
                event = Event::Ready;
            }
            Action::Run(step) => event = carry_out(&mut store, &step),
            Action::Finish => break,
        }
    }
    assert_eq!(pool_filled, Some(50));
    assert_eq!(count(&store, "ballast"), 0);
    assert_eq!(count(&store, "large"), 50);
    for index in 0..50u64 {
        assert_eq!(size_of(&store, "large", &tagged(Table::Large, index)), Some(307_200));
    }
    assert_eq!(driver.ballast().remaining(), 0);
    assert_eq!(driver.ballast().count(), 50);
    assert_eq!(driver.ballast().state(), PoolState::PartiallyConsumed);
}

#[test]
fn a_larger_pool_keeps_its_youngest_records() {
    let mut config = small_config(Layout::MultiTable);
    config.ballast_values_to_insert = 5;
    let mut driver = Driver::with_deletions(config, vec![1, 2]).ok().unwrap();
    let mut store = memory_store();
    run_to_end(&mut driver, &mut store);
    assert_eq!(count(&store, "ballast"), 3);
    assert_eq!(size_of(&store, "ballast", &tagged(Table::Ballast, 0)), None);
    assert_eq!(size_of(&store, "ballast", &tagged(Table::Ballast, 1)), None);
    assert_eq!(size_of(&store, "ballast", &tagged(Table::Ballast, 2)), Some(32));
    assert_eq!(driver.ballast().remaining(), 3);
}

#[test]
fn without_ballast_the_large_records_are_only_put() {
    let mut config = small_config(Layout::MultiTable);
    config.use_ballast = false;
    config.delete_small = false;
    let mut driver = Driver::with_deletions(config, Vec::new()).ok().unwrap();
    let mut store = memory_store();
    let entered = run_to_end(&mut driver, &mut store);
    assert_eq!(entered, vec![Phase::SeedOrReuseBase, Phase::InsertSmall, Phase::InsertLarge]);
    assert_eq!(count(&store, "small"), 3);
    assert_eq!(count(&store, "ballast"), 0);
    assert_eq!(count(&store, "large"), 2);
    assert_eq!(store.commits, 1 + 2);
    assert_eq!(driver.ballast().count(), 0);
}

#[test]
fn a_shared_namespace_takes_every_record_at_its_end() {
    let config = small_config(Layout::SingleTable);
    let mut driver = Driver::with_deletions(config, vec![2, 0]).ok().unwrap();
    let mut store = memory_store();
    let mut keys = Vec::new();
    let mut event = Event::Ready;
    loop {
        match driver.step(event).unwrap() {
            Action::Enter { .. } => event = Event::Ready,
            Action::Run(step) => {
                assert_eq!(step.namespace, "data");
                assert_eq!(step.append, matches!(step.op, Op::Put { .. }));
                if step.append {
                    keys.push(step.key.clone());
                }
                event = carry_out(&mut store, &step);
            }
            Action::Finish => break,
        }
    }
    let expected: Vec<Vec<u8>> = (0..7u64).map(|counter| counter.to_be_bytes().to_vec()).collect();
    assert_eq!(keys, expected);
    assert_eq!(count(&store, "data"), 1 + 0 + 2);
    assert_eq!(size_of(&store, "data", &1u64.to_be_bytes()), Some(8));
    assert_eq!(size_of(&store, "data", &5u64.to_be_bytes()), Some(64));
    assert_eq!(size_of(&store, "data", &6u64.to_be_bytes()), Some(64));
}

#[test]
fn deletions_go_in_chunks() {
    let mut config = small_config(Layout::MultiTable);
    config.small_values_to_insert = 30;
    config.small_values_to_delete = 25;
    config.delete_chunk = 10;
    config.use_ballast = false;
    config.large_values_to_insert = 0;
    let doomed: Vec<u64> = (0..25).collect();
    let mut driver = Driver::with_deletions(config, doomed).ok().unwrap();
    let mut store = memory_store();
    let mut begins = Vec::new();
    let mut commits = Vec::new();
    let mut event = Event::Ready;
    loop {
        match driver.step(event).unwrap() {
            Action::Enter { .. } => event = Event::Ready,
            Action::Run(step) => {
                if let Op::Delete { index, .. } = step.op {
                    if step.begin {
                        begins.push(index);
                    }
                    if step.commit {
                        commits.push(index);
                    }
                }
                event = carry_out(&mut store, &step);
            }
            Action::Finish => break,
        }
    }
    assert_eq!(begins, vec![0, 10, 20]);
    assert_eq!(commits, vec![9, 19, 24]);
    assert_eq!(count(&store, "small"), 5);
}

#[test]
fn a_reused_base_is_not_seeded_again() {
    let config = small_config(Layout::MultiTable);
    let mut driver = Driver::with_deletions(config, vec![2, 0]).ok().unwrap();
    assert!(matches!(
        driver.step(Event::Ready),
        Ok(Action::Enter { phase: Phase::SeedOrReuseBase, persist_base: false })
    ));
    assert!(!driver.reused_base());
    assert!(matches!(
        driver.step(Event::BaseReused),
        Ok(Action::Enter { phase: Phase::InsertBallast, persist_base: false })
    ));
    assert!(driver.reused_base());
    let mut store = memory_store();
    let entered = run_to_end(&mut driver, &mut store);
    assert_eq!(entered, vec![Phase::InsertLarge]);
    assert_eq!(count(&store, "small"), 0);
    assert_eq!(count(&store, "large"), 2);
}

#[test]
fn the_base_is_kept_when_the_seeding_is_over() {
    let mut config = small_config(Layout::MultiTable);
    config.delete_small = false;
    config.use_ballast = false;
    let mut driver = Driver::with_deletions(config, Vec::new()).ok().unwrap();
    let mut store = memory_store();
    let mut kept = Vec::new();
    let mut event = Event::Ready;
    loop {
        match driver.step(event).unwrap() {
            Action::Enter { phase, persist_base } => {
                if persist_base {
                    kept.push((phase, count(&store, "small")));
                }
                event = Event::Ready;
            }
            Action::Run(step) => event = carry_out(&mut store, &step),
            Action::Finish => break,
        }
    }
    assert_eq!(kept, vec![(Phase::InsertLarge, 3)]);
}

#[test]
fn a_missing_record_ends_the_run() {
    let config = small_config(Layout::MultiTable);
    let mut driver = Driver::with_deletions(config, vec![2, 0]).ok().unwrap();
    let mut event = Event::Ready;
    loop {
        match driver.step(event).unwrap() {
            Action::Run(Step { op: Op::Delete { table: Table::Ballast, index: 0 }, .. }) => break,
            Action::Run(Step { op: Op::Delete { .. }, .. }) => {
                event = Event::Deleted { present: true }
            }
            _ => event = Event::Ready,
        }
    }
    let missing =
        Fault::Protocol(ProtocolViolation::RecordMissing { table: Table::Ballast, index: 0 });
    assert_eq!(driver.step(Event::Deleted { present: false }).err(), Some(missing));
    assert_eq!(driver.fault(), Some(missing));
    assert_eq!(driver.phase(), Phase::InsertLarge);
    assert_eq!(driver.step(Event::Ready).err(), Some(missing));
    assert_eq!(driver.step(Event::Deleted { present: true }).err(), Some(missing));
    assert_eq!(driver.step(Event::Failed).err(), Some(missing));
}

#[test]
fn a_missing_small_record_ends_the_run() {
    let config = small_config(Layout::MultiTable);
    let mut driver = Driver::with_deletions(config, vec![2, 0]).ok().unwrap();
    let mut event = Event::Ready;
    loop {
        match driver.step(event).unwrap() {
            Action::Run(Step { op: Op::Delete { .. }, .. }) => break,
            _ => event = Event::Ready,
        }
    }
    assert_eq!(
        driver.step(Event::Deleted { present: false }).err(),
        Some(Fault::Protocol(ProtocolViolation::RecordMissing { table: Table::Small, index: 2 }))
    );
}

#[test]
fn a_failure_of_the_store_ends_the_run() {
    let config = small_config(Layout::MultiTable);
    let mut driver = Driver::with_deletions(config, vec![2, 0]).ok().unwrap();
    assert!(driver.step(Event::Ready).is_ok());
    assert!(driver.step(Event::Ready).is_ok());
    assert!(matches!(driver.step(Event::Ready), Ok(Action::Run(_))));
    assert_eq!(driver.step(Event::Failed).err(), Some(Fault::Storage));
    assert_eq!(driver.fault(), Some(Fault::Storage));
    assert_eq!(driver.step(Event::Ready).err(), Some(Fault::Storage));
    assert_eq!(driver.phase(), Phase::InsertSmall);
}

#[test]
fn an_answer_to_nothing_ends_the_run() {
    let unexpected = Fault::Protocol(ProtocolViolation::UnexpectedEvent);
    let config = small_config(Layout::MultiTable);
    let mut driver = Driver::with_deletions(config, vec![2, 0]).ok().unwrap();
    assert_eq!(driver.step(Event::Deleted { present: true }).err(), Some(unexpected));
    assert_eq!(driver.step(Event::Ready).err(), Some(unexpected));

    let mut driver = Driver::with_deletions(config, vec![2, 0]).ok().unwrap();
    assert_eq!(driver.step(Event::BaseReused).err(), Some(unexpected));

    let mut driver = Driver::with_deletions(config, vec![2, 0]).ok().unwrap();
    let mut event = Event::Ready;
    loop {
        match driver.step(event).unwrap() {
            Action::Run(Step { op: Op::Delete { .. }, .. }) => break,
            _ => event = Event::Ready,
        }
    }
    assert_eq!(driver.step(Event::Ready).err(), Some(unexpected));
}

#[test]
fn events_are_held_against_what_was_asked() {
    let put = Some(Op::Put { table: Table::Small, index: 1, size: 8 });
    let delete = Some(Op::Delete { table: Table::Small, index: 1 });
    let unexpected = Some(Fault::Protocol(ProtocolViolation::UnexpectedEvent));
    assert_eq!(judge(None, false, Event::Ready), None);
    assert_eq!(judge(put, false, Event::Ready), None);
    assert_eq!(judge(delete, false, Event::Ready), unexpected);
    assert_eq!(judge(delete, false, Event::Deleted { present: true }), None);
    assert_eq!(
        judge(delete, false, Event::Deleted { present: false }),
        Some(Fault::Protocol(ProtocolViolation::RecordMissing { table: Table::Small, index: 1 }))
    );
    assert_eq!(judge(put, false, Event::Deleted { present: true }), unexpected);
    assert_eq!(judge(None, false, Event::Deleted { present: false }), unexpected);
    assert_eq!(judge(None, true, Event::BaseReused), None);
    assert_eq!(judge(None, false, Event::BaseReused), unexpected);
    assert_eq!(judge(delete, true, Event::BaseReused), unexpected);
    assert_eq!(judge(None, false, Event::Failed), Some(Fault::Storage));
    assert_eq!(judge(delete, true, Event::Failed), Some(Fault::Storage));
}

#[test]
fn a_configuration_with_a_defect_gets_no_driver() {
    let mut config = small_config(Layout::MultiTable);
    config.small_values_to_delete = 4;
    assert_eq!(Driver::new(config).err(), Some(ConfigError::DeleteExceedsInsert));
    assert_eq!(
        Driver::with_deletions(config, Vec::new()).err(),
        Some(ConfigError::DeleteExceedsInsert)
    );
    let mut config = small_config(Layout::MultiTable);
    config.ballast_values_to_insert = 1;
    assert_eq!(Driver::new(config).err(), Some(ConfigError::BallastTooSmall));
    let mut config = small_config(Layout::MultiTable);
    config.delete_chunk = 0;
    assert_eq!(Driver::new(config).err(), Some(ConfigError::EmptyChunk));
    let mut config = small_config(Layout::SingleTable);
    config.delete_small = false;
    config.small_values_to_insert = u64::MAX;
    assert_eq!(
        Driver::with_deletions(config, Vec::new()).err(),
        Some(ConfigError::KeySpaceExhausted)
    );
}

#[test]
fn deletions_are_drawn_without_replacement() {
    let mut config = Config::standard();
    config.small_values_to_insert = 1000;
    config.small_values_to_delete = 400;
    let doomed = draw_deletions(&config);
    assert_eq!(doomed.len(), 400);
    assert!(doomed.windows(2).all(|pair| pair[0] < pair[1]));
    assert!(doomed.iter().all(|index| *index < 1000));
    let first: Vec<u64> = (0..400).collect();
    assert_ne!(doomed, first);

    config.sort_deletions = false;
    let doomed = draw_deletions(&config);
    assert_eq!(doomed.len(), 400);
    let mut sorted = doomed.clone();
    sorted.sort();
    sorted.dedup();
    assert_eq!(sorted.len(), 400);
    assert_ne!(doomed, sorted);

    config.delete_small = false;
    assert!(draw_deletions(&config).is_empty());
    config.delete_small = true;
    config.small_values_to_delete = 1000;
    config.sort_deletions = true;
    let all: Vec<u64> = (0..1000).collect();
    assert_eq!(draw_deletions(&config), all);
}

#[test]
fn deletions_that_cannot_be_made_are_refused() {
    let config = small_config(Layout::MultiTable);
    assert!(deletions_ok(&config, &vec![2, 0]));
    assert!(deletions_ok(&config, &vec![0, 1]));
    assert!(!deletions_ok(&config, &vec![2, 2]));
    assert!(!deletions_ok(&config, &vec![3, 0]));
    assert!(!deletions_ok(&config, &vec![0]));
    assert!(!deletions_ok(&config, &vec![0, 1, 2]));
    assert!(!deletions_ok(&config, &Vec::new()));
    for doomed in [vec![2, 2], vec![3, 0], vec![0], vec![0, 1, 2], Vec::new()] {
        assert_eq!(Driver::with_deletions(config, doomed).err(), Some(ConfigError::BadDeletions));
    }

    let mut sorted = config;
    sorted.sort_deletions = true;
    assert!(deletions_ok(&sorted, &vec![0, 2]));
    assert!(!deletions_ok(&sorted, &vec![2, 0]));
    assert!(!deletions_ok(&sorted, &vec![1, 1]));
    assert_eq!(
        Driver::with_deletions(sorted, vec![2, 0]).err(),
        Some(ConfigError::BadDeletions)
    );

    let mut none = config;
    none.delete_small = false;
    assert!(deletions_ok(&none, &Vec::new()));
    assert!(!deletions_ok(&none, &vec![0]));
}
