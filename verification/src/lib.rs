//! Bucketed counters over unsigned samples.
//!
//! A [`Histogram`] holds an ordered list of bucket boundaries and one counter
//! per bucket. Samples are routed to a bucket by an ordered search, and the
//! running sum and count are kept alongside. Two read-only views are offered:
//! a dense one (sum and raw counters) and a self-describing one (range, type
//! code and a run-compacted list of counters).

pub mod bucket;
pub mod layout;
pub mod lookup;
pub mod model;
pub mod range;
pub mod render;
pub mod snapshot;
pub mod store;
pub mod text;

pub use crate::bucket::Bucket;
pub use crate::bucket::Buckets;
pub use crate::layout::ConfigurationError;
pub use crate::layout::Type;
pub use crate::model::HistogramView;
pub use crate::snapshot::pack_histogram;
pub use crate::snapshot::FullHistogram;
pub use crate::snapshot::PersistedHistogram;
pub use crate::snapshot::Snapshot;
pub use crate::store::Boundaries;
pub use crate::store::Histogram;
