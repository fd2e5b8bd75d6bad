//! Embedding orchestration: chunking, batching over pluggable model backends,
//! metadata attachment and bounded-concurrency routing of results.
//!
//! The library is parametric in the scalar type of an embedding: it moves
//! vectors around, groups and orders them, and never computes on their
//! components.

pub mod backend;
pub mod chunker;
pub mod config;
pub mod discovery;
pub mod error;
pub mod metadata;
pub mod model;
pub mod orchestrator;
pub mod pipeline;
pub mod pooling;
pub mod scheduler;
pub mod text;
