//! Tenant-aware graph-plus-vector knowledge store: the verified storage and
//! retrieval core.

pub mod ann;
pub mod api;
pub mod audit;
pub mod auth;
pub mod backup;
pub mod bytes;
pub mod chunker;
pub mod community;
pub mod components;
pub mod config;
pub mod crypto;
pub mod dsl;
pub mod embedding;
pub mod engine;
pub mod error;
pub mod extract;
pub mod governance;
pub mod graph;
pub mod graphrag;
pub mod hashing;
pub mod hyper_index;
pub mod ingest;
pub mod laws;
pub mod lightweight;
pub mod metrics;
pub mod model;
pub mod ner;
pub mod ordered;
pub mod planner;
pub mod policy;
pub mod processor;
pub mod queue;
pub mod registry;
pub mod repo;
pub mod scalar;
pub mod semantic_cache;
pub mod seqs;
pub mod snapshot;
pub mod sorted_map;
pub mod sorting;
pub mod state;
pub mod text;
pub mod tokens;
pub mod wal;
pub mod worker;
