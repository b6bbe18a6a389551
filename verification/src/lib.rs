//! Routing, merging, validation and accounting rules of a sharded document node.
//!
//! The modules hold plain data and the decisions made over it. Everything that waits, reads a
//! disk or talks to a peer lives with the caller, which hands the results in and carries out
//! what comes back.

pub mod text;
pub mod text_laws;
pub mod json;
pub mod order;
pub mod hits;
pub mod hit_laws;
pub mod paging_laws;
pub mod sort_laws;
pub mod reasons;
pub mod errors;
pub mod names;
pub mod ip;
pub mod ip_laws;
pub mod schema;
pub mod validation;
pub mod ops;
pub mod schema_laws;
pub mod evolution;
pub mod growth_laws;
pub mod routing;
pub mod search;
pub mod search_laws;
pub mod placement;
pub mod channels;
pub mod dispatch;
pub mod worker_loop;
pub mod broadcast;
pub mod broadcast_laws;
pub mod error_laws;
pub mod describe;
pub mod schema_update;
pub mod catalog;
pub mod cluster_catalog;
pub mod catalog_laws;
pub mod streaming;
pub mod streaming_laws;
pub mod writer;
pub mod writer_round;
pub mod writer_laws;
pub mod grouping;
pub mod bulk;
pub mod bulk_delete;
pub mod write_laws;
pub mod outcome_laws;
pub mod answer_laws;
pub mod router;
pub mod router_laws;
pub mod engine;
pub mod query_laws;
pub mod chance;
pub mod node;
pub mod node_laws;
pub mod posture;
pub mod posture_laws;
pub mod words;
pub mod field_info;
pub mod diagnostics;
pub mod diagnostics_laws;
pub mod analysis;
pub mod discovery;
pub mod resources;
pub mod discovery_laws;
pub mod trimming;
pub mod tool_search;
pub mod tool_laws;
pub mod governance;
