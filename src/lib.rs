//! Correlation and anomaly detection over pipeline trace records: an entity registry
//! with per-pad timestamp checks, per-thread and per-call-site latency deltas, a
//! top-percentile ranking, cross-component frame correlation and call/done counters.
pub mod counters;
pub mod flow;
pub mod frames;
pub mod latency;
pub mod markers;
pub mod ranking;
