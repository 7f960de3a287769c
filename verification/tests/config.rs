use ballast_bench::config::{
    env_settings, Config, ConfigError, EnvSettings, Layout, ReclaimPolicy,
    BALLAST_VALUES_TO_INSERT, BALLAST_VALUE_SIZE, DELETE_CHUNK, LARGE_VALUES_TO_INSERT,
    LARGE_VALUE_SIZE, MAX_SIZE_BYTES, MAX_TABLES, PAGE_SIZE, SMALL_VALUES_TO_DELETE,
    SMALL_VALUES_TO_INSERT, SMALL_VALUE_SIZE, USE_BALLAST, USE_LIFO,
};
use ballast_bench::keys::KeyCodec;

#[test]
fn constants_of_the_experiment() {
    assert!(USE_LIFO);
    assert!(USE_BALLAST);
    assert_eq!(SMALL_VALUES_TO_INSERT, 5_000_000);
    assert_eq!(SMALL_VALUE_SIZE, 2048);
    assert_eq!(SMALL_VALUES_TO_DELETE, 4_000_000);
    assert_eq!(LARGE_VALUES_TO_INSERT, 100);
    assert_eq!(LARGE_VALUE_SIZE, 307_200);
    assert_eq!(BALLAST_VALUES_TO_INSERT, 100);
    assert_eq!(BALLAST_VALUE_SIZE, 307_200);
    assert_eq!(DELETE_CHUNK, 10_000);
    assert_eq!(MAX_SIZE_BYTES, 50 * 1024 * 1024 * 1024);
    assert_eq!(PAGE_SIZE, 4096);
    assert_eq!(MAX_TABLES, 3);
}

#[test]
fn environment_settings_follow_the_policy_flag() {
    assert_eq!(
        env_settings(true),
        EnvSettings {
            max_size_bytes: 53_687_091_200,
            page_size: 4096,
            max_tables: 3,
            reclaim_policy: ReclaimPolicy::Lifo,
        }
    );
    assert_eq!(env_settings(false).reclaim_policy, ReclaimPolicy::Fifo);
}

#[test]
fn the_standard_configuration_is_valid() {
    let config = Config::standard();
    assert_eq!(config.validate(), Ok(()));
    assert_eq!(config.small_values_to_insert, 5_000_000);
    assert_eq!(config.small_values_to_delete, 4_000_000);
    assert_eq!(config.large_values_to_insert, 100);
    assert_eq!(config.ballast_values_to_insert, 100);
    assert_eq!(config.delete_chunk, 10_000);
    assert_eq!(config.layout, Layout::MultiTable);
    assert!(config.use_lifo && config.use_ballast && config.delete_small && config.sort_deletions);
}

#[test]
fn deleting_more_than_is_inserted_is_refused() {
    let mut config = Config::standard();
    config.small_values_to_delete = config.small_values_to_insert + 1;
    assert_eq!(config.validate(), Err(ConfigError::DeleteExceedsInsert));
    config.delete_small = false;
    assert_eq!(config.validate(), Ok(()));
    config.delete_small = true;
    config.small_values_to_delete = config.small_values_to_insert;
    assert_eq!(config.validate(), Ok(()));
}

#[test]
fn a_pool_smaller_than_the_demand_is_refused() {
    let mut config = Config::standard();
    config.ballast_values_to_insert = 99;
    assert_eq!(config.validate(), Err(ConfigError::BallastTooSmall));
    config.use_ballast = false;
    assert_eq!(config.validate(), Ok(()));
}

#[test]
fn an_empty_chunk_is_refused() {
    let mut config = Config::standard();
    config.delete_chunk = 0;
    assert_eq!(config.validate(), Err(ConfigError::EmptyChunk));
    config.delete_small = false;
    assert_eq!(config.validate(), Ok(()));
}

#[test]
fn a_shared_namespace_must_number_all_records() {
    let mut config = Config::standard();
    config.layout = Layout::SingleTable;
    assert_eq!(config.validate(), Ok(()));
    config.delete_small = false;
    config.small_values_to_insert = u64::MAX - 150;
    assert_eq!(config.validate(), Err(ConfigError::KeySpaceExhausted));
    config.small_values_to_insert = u64::MAX - 200;
    assert_eq!(config.validate(), Ok(()));
    config.layout = Layout::MultiTable;
    config.small_values_to_insert = u64::MAX;
    assert_eq!(config.validate(), Ok(()));
}

#[test]
fn the_first_defect_is_reported() {
    let mut config = Config::standard();
    config.small_values_to_delete = config.small_values_to_insert + 1;
    config.ballast_values_to_insert = 0;
    config.delete_chunk = 0;
    assert_eq!(config.validate(), Err(ConfigError::DeleteExceedsInsert));
    config.small_values_to_delete = 0;
    assert_eq!(config.validate(), Err(ConfigError::BallastTooSmall));
    config.ballast_values_to_insert = 100;
    assert_eq!(config.validate(), Err(ConfigError::EmptyChunk));
}

#[test]
fn the_codec_follows_the_layout() {
    let mut config = Config::standard();
    assert!(matches!(config.key_codec(), KeyCodec::Tagged));
    config.layout = Layout::SingleTable;
    assert!(matches!(
        config.key_codec(),
        KeyCodec::Flat { small: 5_000_000, ballast: 100 }
    ));
}
