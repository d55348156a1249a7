//! Verified core of the data connect hub services: format detection, JSON
//! schema inference and reading, trace configuration, gRPC and REST request
//! decisions, and the request rules of the URI connector.
pub mod discovery;
pub mod error;
pub mod format;
pub mod grpc;
pub mod header;
pub mod json;
pub mod rest;
pub mod sample;
pub mod text;
pub mod trace_config;
pub mod uri;
pub mod laws;
