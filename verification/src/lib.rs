//! Core pipeline of a usage-metrics status line: it ingests per-session
//! usage-event logs, deduplicates and time-orders them, groups them into
//! five-hour billing blocks (fixed or dynamic, with manual overrides),
//! resolves per-model token pricing through a tiered cache, and computes
//! live spend and burn-rate metrics for a rendering layer.
//!
//! All money amounts are integers in millionths of a dollar and all
//! timestamps are integers in seconds since the Unix epoch, so that every
//! computation here is exact and verified; the surrounding application
//! converts at the edges.

pub mod block;
pub mod calculator;
pub mod config;
pub mod harvest;
pub mod overrides;
pub mod pricing;
pub mod segments;
pub mod text;
pub mod time;
pub mod types;
pub mod usage;
