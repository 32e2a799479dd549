//! Versioned derivative datasets: identifiers, time intervals, metadata
//! chains, the dataset repository, the transform derivation and pull planning.

pub mod dataset_id;
pub mod time_interval;
pub mod error;
pub mod metadata;
pub mod block_hash;
pub mod metadata_chain;
pub mod layout;
pub mod repository;
pub mod engine;
pub mod transform;
pub mod ingest;
pub mod pull;
pub mod text;
pub mod docker_client;
pub mod sql_shell;
pub mod interval_text;
