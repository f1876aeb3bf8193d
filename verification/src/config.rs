//! What the caller sets: the cadence of the flush, the capacity of the
//! hand-off channel, the throttle window, and the limit of sends.

use crate::flusher::FlushPolicy;
use vstd::prelude::*;

verus! {

/// The settings of the pipeline.
#[derive(Clone, Copy, Debug, PartialEq, Eq)]
pub struct Config {
    /// Seconds between two flush cycles.
    pub flush_interval: u64,
    /// How many readings the hand-off channel holds at most.
    pub queue_capacity: usize,
    /// Seconds that must pass between two deliveries for one device; without
    /// a window each reading is handed on once.
    pub throttle_window: Option<u64>,
    /// How many sends of one reading are made at most.
    pub publish_attempts: u32,
}

/// Why settings are refused.
#[derive(Clone, Copy, Debug, PartialEq, Eq)]
pub enum ConfigError {
    /// The flush would run without pause.
    ZeroFlushInterval,
    /// The hand-off channel could hold nothing.
    ZeroQueueCapacity,
}

impl Config {
    /// What `validate` answers: the first fault, if there is one.
    pub open spec fn fault(&self) -> Option<ConfigError> {
        if self.flush_interval == 0 {
            Some(ConfigError::ZeroFlushInterval)
        } else if self.queue_capacity == 0 {
            Some(ConfigError::ZeroQueueCapacity)
        } else {
            None
        }
    }

    /// The flush policy that the settings ask for.
    pub open spec fn flush_policy(&self) -> FlushPolicy {
        match self.throttle_window {
            Some(window) => FlushPolicy::TimeThrottled { window },
            None => FlushPolicy::MarkOnScan,
        }
    }

    /// Checks that the flush pauses between cycles and that the hand-off
    /// channel can hold a reading.
    pub fn validate(&self) -> (outcome: Result<(), ConfigError>)
        ensures
            outcome == (match self.fault() {
                Some(fault) => Err::<(), ConfigError>(fault),
                None => Ok(()),
            }),
    {
        if self.flush_interval == 0 {
            Err(ConfigError::ZeroFlushInterval)
        } else if self.queue_capacity == 0 {
            Err(ConfigError::ZeroQueueCapacity)
        } else {
            Ok(())
        }
    }

    /// The flush policy that the settings ask for: the throttle where a
    /// window is set, else mark-on-scan.
    pub fn policy(&self) -> (policy: FlushPolicy)
        ensures
            policy == self.flush_policy(),
    {
        match self.throttle_window {
            Some(window) => FlushPolicy::TimeThrottled { window },
            None => FlushPolicy::MarkOnScan,
        }
    }
}

} // verus!
