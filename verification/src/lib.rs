//! Verified core of the Nous AI toolkit and API layer: text chunking, prompt
//! templates, conversation bookkeeping, the decisions of an agent run,
//! keyword indexing and retrieval bookkeeping, and the request and response
//! types of the HTTP API with the checks its handlers make.

pub mod text;
pub mod chunking;
pub mod error;
pub mod prompt;
pub mod conversation;
pub mod pipeline;
pub mod agent;
pub mod http_backend;
pub mod json;
pub mod executor;
pub mod api;
pub mod desktop;
pub mod knowledge;
pub mod search;
pub mod rag;
