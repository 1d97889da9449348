//! The metric core of a telemetry pipeline: a canonical in-memory model
//! for numeric observability data (counters, gauges, sets, distributions,
//! histograms, summaries), the merge and reset algebra that folds
//! successive observations into running series state, the tag-based
//! identity rules that keep differently-tagged emissions apart, the
//! deterministic canonical text rendering, and the snapshot bridge that
//! exposes live aggregated state to streaming query consumers.
//!
//! Numeric magnitudes are exact decimals (`decimal::Decimal`) and instants
//! are civil calendar fields (`timestamp::Timestamp`), so every algorithm
//! here is stated and proved over plain values.

pub mod decimal;
pub mod text;
pub mod tags;
pub mod strset;
pub mod timestamp;
pub mod metric;
pub mod format;
pub mod registry;
pub mod api;
pub mod laws;
pub mod statsd;
pub mod capture;
