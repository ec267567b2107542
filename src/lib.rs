//! Ingestion and retrieval engine for a personal multimodal archive: the
//! decisions of the task queue, the enrichment pipeline, album coordination,
//! reaction tagging, hybrid retrieval and the read API, each stated and proved
//! over plain values.

pub mod album;
pub mod assets;
pub mod collections;
pub mod config;
pub mod cursor;
pub mod deletion;
pub mod error;
pub mod feedback;
pub mod fusion;
pub mod hashing;
pub mod links;
pub mod listing;
pub mod payload;
pub mod pipeline;
pub mod queue;
pub mod search;
pub mod submission;
pub mod tags;
pub mod text;
