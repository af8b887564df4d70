//! PDFind core: the decisions behind full-text PDF search, the knowledge-base
//! chunking and ranking, and the video-to-PDF pipeline, each with a contract.
pub mod text;
pub mod state;
pub mod chunking;
pub mod retrieve;
pub mod models;
pub mod organizer;
pub mod llm;
pub mod download;
pub mod device;
pub mod llamacpp;
pub mod search;
pub mod tree;
pub mod kb;
pub mod ingest;
pub mod cache;
pub mod pipeline;
