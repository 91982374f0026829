//! An in-memory store for directed multigraphs, filled in bulk from
//! tab-separated edge lists.
//!
//! [`graph`] holds the store and its model, [`parse`] reads node
//! identifiers and edges out of the fields of a record, [`stream`] turns
//! bytes into a stream of edges, and [`ingest`] drives a stream into a
//! store.

pub mod error;
pub mod graph;
pub mod ingest;
pub mod parse;
pub mod stream;

pub use crate::error::IngestError;
pub use crate::graph::{Graph, NodeId, NodeMap};
pub use crate::ingest::{IngestionPipeline, PROGRESS_INTERVAL};
pub use crate::stream::EdgeStream;
