use ballast_bench::config::Config;
use ballast_bench::plan::{checkpoint_at, Phase};

#[test]
fn phases_follow_each_other_in_order() {
    let config = Config::standard();
    let mut phase = Phase::Init;
    let mut seen = vec![phase];
    while phase != Phase::Done {
        phase = phase.next(&config, false);
        seen.push(phase);
    }
    assert_eq!(
        seen,
        vec![
            Phase::Init,
            Phase::SeedOrReuseBase,
            Phase::InsertSmall,
            Phase::DeleteSmall,
            Phase::InsertBallast,
            Phase::InsertLarge,
            Phase::Done,
        ]
    );
    assert_eq!(Phase::Done.next(&config, false), Phase::Done);
}

#[test]
fn phases_that_are_switched_off_are_left_out() {
    let mut config = Config::standard();
    config.delete_small = false;
    config.use_ballast = false;
    assert_eq!(Phase::InsertSmall.next(&config, false), Phase::InsertLarge);
    config.use_ballast = true;
    assert_eq!(Phase::InsertSmall.next(&config, false), Phase::InsertBallast);
    config.delete_small = true;
    config.use_ballast = false;
    assert_eq!(Phase::InsertSmall.next(&config, false), Phase::DeleteSmall);
    assert_eq!(Phase::DeleteSmall.next(&config, false), Phase::InsertLarge);
}

#[test]
fn a_reused_base_leaves_the_small_phases_out() {
    let mut config = Config::standard();
    assert_eq!(Phase::SeedOrReuseBase.next(&config, true), Phase::InsertBallast);
    config.use_ballast = false;
    assert_eq!(Phase::SeedOrReuseBase.next(&config, true), Phase::InsertLarge);
    assert!(!Phase::InsertSmall.is_enabled(&config, true));
    assert!(!Phase::DeleteSmall.is_enabled(&config, true));
    assert!(Phase::InsertSmall.is_enabled(&config, false));
    assert!(Phase::InsertSmall.is_seeding() && Phase::DeleteSmall.is_seeding());
    assert!(!Phase::InsertBallast.is_seeding() && !Phase::SeedOrReuseBase.is_seeding());
}

#[test]
fn progress_is_reported_every_tenth() {
    let reports: Vec<(u64, u32)> = (0..=101u64)
        .filter_map(|done| checkpoint_at(100, done).map(|permille| (done, permille)))
        .collect();
    let expected: Vec<(u64, u32)> = (1..=10u64).map(|k| (10 * k, 100 * k as u32)).collect();
    assert_eq!(reports, expected);
}

#[test]
fn progress_of_a_count_that_ten_does_not_divide() {
    let reports: Vec<(u64, u32)> = (0..=25u64)
        .filter_map(|done| checkpoint_at(25, done).map(|permille| (done, permille)))
        .collect();
    assert_eq!(
        reports,
        vec![
            (3, 120),
            (6, 240),
            (9, 360),
            (12, 480),
            (15, 600),
            (18, 720),
            (21, 840),
            (24, 960),
            (25, 1000)
        ]
    );
}

#[test]
fn progress_of_few_records() {
    assert_eq!(checkpoint_at(0, 0), None);
    assert_eq!(checkpoint_at(1, 0), None);
    assert_eq!(checkpoint_at(1, 1), Some(1000));
    assert_eq!(checkpoint_at(1, 2), None);
    assert_eq!(checkpoint_at(3, 1), Some(333));
    assert_eq!(checkpoint_at(3, 2), Some(666));
    assert_eq!(checkpoint_at(3, 3), Some(1000));
    assert_eq!(checkpoint_at(u64::MAX, u64::MAX), Some(1000));
}
