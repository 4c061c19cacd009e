//! Extraction from Go sources.
pub mod kafka;
pub mod values;
pub mod edge_values;
pub mod edge_resolution;
pub mod message_edge_project;
pub mod files;
pub mod shared;
pub mod evaluator;
pub mod identify;
pub mod message_edges;
pub mod grpc;
pub mod message_edge_strategies;
pub mod legacy;
pub mod pipeline;
pub mod package_resolution;
pub mod syntax;
pub mod endpoint_frameworks;
pub mod endpoints;
pub use files::should_extract_file;
pub mod ir;
pub mod assignment_store;
pub mod ir_assignments;
pub mod syntactic;
pub mod parse;
pub mod package_context;
pub mod uri_generator;
