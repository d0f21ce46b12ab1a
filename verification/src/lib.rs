//! Commit-graph layout engine for a desktop version-control client.
//!
//! Given an ordered list of commits (newest first, each carrying zero or
//! more parent references), the engine computes a two-dimensional layout:
//! a lane (horizontal track) per commit, a palette index per lineage, and
//! the connector geometry that links each commit to each of its parents.
//! The result is ready to render as a branch/merge diagram.
//!
//! The engine is a pure function of its input sequence: it performs no
//! I/O, keeps no state between invocations, and never panics on malformed
//! history (missing parents, duplicate ids). A small localization service
//! for the surrounding client lives in [`i18n`].

pub mod credentials;
pub mod decimal;
pub mod geometry;
pub mod graph;
pub mod i18n;
pub mod laws;
pub mod layout;
pub mod record;
pub mod text;

pub use decimal::u64_to_dec;
pub use graph::{generate_graph, Connector, GraphNode};
pub use record::CommitRecord;
