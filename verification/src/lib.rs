//! Verified core of a hazard-event aggregation pipeline.
//!
//! Heterogeneous external feeds (seismic, weather alerts, multi-hazard
//! catalogs) are normalized into a single store of events and alerts, kept
//! geospatially queryable through a bounding-box index, deduplicated into
//! canonical events, and asynchronously enriched with classification labels.
//!
//! All quantities that the logic reasons about are held as plain integers:
//! coordinates in micro-degrees, severity and confidence on a per-mille
//! scale in `[0, 1000]`, timestamps as Unix seconds.

pub mod alerts;
pub mod cap;
pub mod collect;
pub mod enrich;
pub mod geo;
pub mod ids;
pub mod merge;
pub mod rules;
pub mod model;
pub mod store;
pub mod text;
pub mod times;
pub mod units;
