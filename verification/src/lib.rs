//! Bridges the broadcasts of nearby sensor beacons to a publish/subscribe
//! broker: the latest reading of each device is cached, handed on by a
//! periodic flush, and formatted for publication.
//!
//! The pipeline has three stages. [`ruuvi`] turns an advertisement into a
//! measurement, and [`aggregator`] keeps the latest reading of each device.
//! [`flusher`] picks, cycle by cycle, the readings to hand on, and
//! [`forwarder`] says in which order they go to the hand-off channel and
//! when the flush rests. [`mqtt`] holds what the publish stage sends and how
//! often it tries. [`utils`] reads hardware addresses and aliases, and
//! [`config`] holds the settings.
//!
//! The library does no input or output, and it neither waits nor locks: the
//! program around it owns the radio, the broker's connection, the channel
//! and the tasks, and keeps the cache behind one lock.

pub mod aggregator;
pub mod config;
pub mod flusher;
pub mod forwarder;
pub mod mqtt;
pub mod reading;
pub mod ruuvi;
pub mod text;
pub mod utils;
