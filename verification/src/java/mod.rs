//! Extraction from Java sources and Spring configuration files.
pub mod annotations;
pub mod entities;
pub mod strings;
pub mod kafka;
pub mod rabbitmq;
pub mod config;
pub mod grpc;
pub mod types;
pub mod listeners;
pub mod params;
pub mod enclosing;
pub mod assignments;
pub mod calls;
pub mod entity_extractor;
pub mod imports;
pub mod endpoint_extractor;
pub mod callable_extractor;
pub mod type_inference;
pub mod source;
pub mod queries;
