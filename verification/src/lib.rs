//! A document indexing and retrieval engine: free text is split into
//! overlapping, sentence-aware chunks, kept in a keyed store beside a
//! full-text index, and queried for ranked passages.
//!
//! [`engine::RAGEngine`] ties the parts together. [`chunker`] cuts a text
//! into chunks, [`normalizer`] turns a query into tokens and a match
//! expression, [`store`] keeps documents with their chunks, [`index`] is the
//! full-text index, [`retriever`] and [`ranking`] score and order what a
//! query finds, and [`laws`] states what holds of all of them together.
//! [`service`] holds the rules of the request service in front of the
//! engine.

pub mod agreement;
pub mod chunker;
pub mod engine;
pub mod error;
pub mod index;
pub mod laws;
pub mod normalizer;
pub mod ranking;
pub mod retriever;
pub mod service;
pub mod store;
pub mod text;

pub use crate::chunker::DocumentChunk;
pub use crate::engine::{RAGEngine, RAGStats};
pub use crate::error::EngineError;
pub use crate::retriever::SearchResult;
pub use crate::service::{ChaosResponse, MoralRequest, ScalingRequest};
pub use crate::store::Document;
