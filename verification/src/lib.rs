//! Translates metric entries into OpenTelemetry measurements.
//!
//! A plan is made of an entry's descriptors once ([`plan`]). Each time the entry
//! is written, its strings and metrics are collected, and the metrics are then
//! recorded with the instruments of the plan ([`translator`]).

pub mod cache_laws;
pub mod fallback;
pub mod float;
pub mod journal;
pub mod laws;
pub mod metrics;
pub mod observation;
pub mod operation_laws;
pub mod outside;
pub mod plan;
pub mod tags;
pub mod translator;
