//! Aggregation-and-layout engine for a sunburst view of cryptographic audit
//! traces: it builds a weighted tree from nested audit events, partitions a
//! circle into proportional ring segments, hit-tests pointer positions against
//! those segments, tracks zoom and selection state, and derives time-range and
//! algorithm-usage statistics.

pub mod color;
pub mod data;
pub mod layout;
pub mod period;
pub mod stats;
pub mod sunburst;
pub mod text;
pub mod tree;
