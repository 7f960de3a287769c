//! The static configuration of an experiment and of the store's environment.

use crate::keys::KeyCodec;
use vstd::prelude::*;

verus! {

pub const USE_LIFO: bool = true;

pub const USE_BALLAST: bool = true;

pub const DELETE_SMALL: bool = true;

pub const SMALL_VALUES_TO_INSERT: u64 = 5_000_000;

pub const SMALL_VALUE_SIZE: usize = 2 * 1024;

pub const SMALL_VALUES_TO_DELETE: u64 = 4_000_000;

pub const LARGE_VALUES_TO_INSERT: u64 = 100;

pub const LARGE_VALUE_SIZE: usize = 300 * 1024;

/// The ballast records for each hundred large records.
pub const BALLAST_VALUES_TO_LARGE_VALUES_PERCENT: u64 = 100;

/// The size of a ballast record in hundredths of the size of a large one.
pub const BALLAST_VALUE_SIZE_TO_LARGE_VALUE_SIZE_PERCENT: usize = 100;

pub const BALLAST_VALUES_TO_INSERT: u64 = LARGE_VALUES_TO_INSERT
    * BALLAST_VALUES_TO_LARGE_VALUES_PERCENT / 100;

pub const BALLAST_VALUE_SIZE: usize = LARGE_VALUE_SIZE
    * BALLAST_VALUE_SIZE_TO_LARGE_VALUE_SIZE_PERCENT / 100;

/// The most deletions that go into one transaction.
pub const DELETE_CHUNK: u64 = 10_000;

/// The upper bound of the store's size on disk, in bytes.
pub const MAX_SIZE_BYTES: u64 = 50 * 1024 * 1024 * 1024;

/// The store's page size, in bytes.
pub const PAGE_SIZE: u32 = 4 * 1024;

/// The most namespaces that the store is asked to hold.
pub const MAX_TABLES: u64 = 3;

/// The order in which the store reuses the pages that were freed.
#[derive(Clone, Copy, Debug, PartialEq, Eq, Structural)]
pub enum ReclaimPolicy {
    /// The page freed last is reused first.
    Lifo,
    /// The page freed first is reused first.
    Fifo,
}

/// What the store's environment is opened with. It is fixed before the first
/// table is created.
#[derive(Clone, Copy, Debug, PartialEq, Eq, Structural)]
pub struct EnvSettings {
    pub max_size_bytes: u64,
    pub page_size: u32,
    pub max_tables: u64,
    pub reclaim_policy: ReclaimPolicy,
}

/// The reclaim policy that the flag stands for.
pub open spec fn policy_of(use_lifo: bool) -> ReclaimPolicy {
    if use_lifo {
        ReclaimPolicy::Lifo
    } else {
        ReclaimPolicy::Fifo
    }
}

/// The settings of the environment for a run under the given policy.
pub fn env_settings(use_lifo: bool) -> (settings: EnvSettings)
    ensures
        settings == (EnvSettings {
            max_size_bytes: 53_687_091_200,
            page_size: 4096,
            max_tables: 3,
            reclaim_policy: policy_of(use_lifo),
        }),
{
    EnvSettings {
        max_size_bytes: MAX_SIZE_BYTES,
        page_size: PAGE_SIZE,
        max_tables: MAX_TABLES,
        reclaim_policy: if use_lifo {
            ReclaimPolicy::Lifo
        } else {
            ReclaimPolicy::Fifo
        },
    }
}

/// How the tables are laid out in the store.
#[derive(Clone, Copy, Debug, PartialEq, Eq, Structural)]
pub enum Layout {
    /// A namespace for each table, with tagged keys.
    MultiTable,
    /// One namespace for all tables, with keys from one counter.
    SingleTable,
}

/// What an experiment does: which phases it runs, and how many records of
/// which size each of them writes or deletes.
#[derive(Clone, Copy, Debug, PartialEq, Eq, Structural)]
pub struct Config {
    pub use_lifo: bool,
    pub use_ballast: bool,
    pub delete_small: bool,
    /// Whether the small records are deleted in ascending order of the
    /// index rather than in the random order in which they were drawn.
    pub sort_deletions: bool,
    pub layout: Layout,
    pub small_values_to_insert: u64,
    pub small_value_size: usize,
    pub small_values_to_delete: u64,
    pub large_values_to_insert: u64,
    pub large_value_size: usize,
    pub ballast_values_to_insert: u64,
    pub ballast_value_size: usize,
    pub delete_chunk: u64,
}

/// Why a configuration cannot be run.
#[derive(Clone, Copy, Debug, PartialEq, Eq, Structural)]
pub enum ConfigError {
    /// More small records are to be deleted than are inserted.
    DeleteExceedsInsert,
    /// The ballast pool is smaller than the number of large records that
    /// each consume one ballast record.
    BallastTooSmall,
    /// A transaction of deletions would hold no deletion.
    EmptyChunk,
    /// The records of all tables together are more than one counter of 64
    /// bits can number.
    KeySpaceExhausted,
    /// The small records that were named for deletion are not distinct
    /// records that are inserted, or not as many as are to be deleted, or
    /// not in ascending order where that is asked for.
    BadDeletions,
}

impl Config {
    /// The first reason, in the order of `ConfigError`, why the configuration
    /// cannot be run by itself; `None` where it can.
    pub open spec fn defect(self) -> Option<ConfigError> {
        if self.delete_small && self.small_values_to_delete > self.small_values_to_insert {
            Some(ConfigError::DeleteExceedsInsert)
        } else if self.use_ballast && self.ballast_values_to_insert
            < self.large_values_to_insert {
            Some(ConfigError::BallastTooSmall)
        } else if self.delete_small && self.delete_chunk == 0 {
            Some(ConfigError::EmptyChunk)
        } else if self.layout == Layout::SingleTable && self.small_values_to_insert
            + self.ballast_values_to_insert + self.large_values_to_insert > u64::MAX {
            Some(ConfigError::KeySpaceExhausted)
        } else {
            None
        }
    }

    pub open spec fn valid(self) -> bool {
        self.defect() is None
    }

    /// The codec of the layout. In a single namespace the small records are
    /// numbered first, then the ballast records, then the large ones.
    pub open spec fn codec(self) -> KeyCodec {
        match self.layout {
            Layout::MultiTable => KeyCodec::Tagged,
            Layout::SingleTable => KeyCodec::Flat {
                small: self.small_values_to_insert,
                ballast: self.ballast_values_to_insert,
            },
        }
    }

    /// The configuration of the experiment as it is usually run.
    pub fn standard() -> (config: Config)
        ensures
            config == (Config {
                use_lifo: true,
                use_ballast: true,
                delete_small: true,
                sort_deletions: true,
                layout: Layout::MultiTable,
                small_values_to_insert: 5_000_000,
                small_value_size: 2048,
                small_values_to_delete: 4_000_000,
                large_values_to_insert: 100,
                large_value_size: 307_200,
                ballast_values_to_insert: 100,
                ballast_value_size: 307_200,
                delete_chunk: 10_000,
            }),
            config.valid(),
    {
        Config {
            use_lifo: USE_LIFO,
            use_ballast: USE_BALLAST,
            delete_small: DELETE_SMALL,
            sort_deletions: true,
            layout: Layout::MultiTable,
            small_values_to_insert: SMALL_VALUES_TO_INSERT,
            small_value_size: SMALL_VALUE_SIZE,
            small_values_to_delete: SMALL_VALUES_TO_DELETE,
            large_values_to_insert: LARGE_VALUES_TO_INSERT,
            large_value_size: LARGE_VALUE_SIZE,
            ballast_values_to_insert: BALLAST_VALUES_TO_INSERT,
            ballast_value_size: BALLAST_VALUE_SIZE,
            delete_chunk: DELETE_CHUNK,
        }
    }

    /// Checks the configuration before anything is run.
    pub fn validate(&self) -> (checked: Result<(), ConfigError>)
        ensures
            match self.defect() {
                Some(error) => checked == Err::<(), ConfigError>(error),
                None => checked is Ok,
            },
    {
        if self.delete_small && self.small_values_to_delete > self.small_values_to_insert {
            return Err(ConfigError::DeleteExceedsInsert);
        }
        if self.use_ballast && self.ballast_values_to_insert < self.large_values_to_insert {
            return Err(ConfigError::BallastTooSmall);
        }
        if self.delete_small && self.delete_chunk == 0 {
            return Err(ConfigError::EmptyChunk);
        }
        match self.layout {
            Layout::MultiTable => Ok(()),
            Layout::SingleTable => {
                if self.small_values_to_insert > u64::MAX - self.ballast_values_to_insert
                    || self.small_values_to_insert + self.ballast_values_to_insert > u64::MAX
                    - self.large_values_to_insert {
                    Err(ConfigError::KeySpaceExhausted)
                } else {
                    Ok(())
                }
            },
        }
    }

    /// The codec of the layout.
    pub fn key_codec(&self) -> (codec: KeyCodec)
        ensures
            codec == self.codec(),
    {
        match self.layout {
            Layout::MultiTable => KeyCodec::Tagged,
            Layout::SingleTable => KeyCodec::Flat {
                small: self.small_values_to_insert,
                ballast: self.ballast_values_to_insert,
            },
        }
    }
}

} // verus!
