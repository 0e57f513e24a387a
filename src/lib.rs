//! Building blocks for small multi-agent pipelines: a web search tool, a
//! vector store over integer embeddings, a registry of shared model handles,
//! and agents chained into a sequential pipeline.
pub mod search;
pub mod vector_store;
pub mod model_manager;
pub mod agent;
pub mod chain;
