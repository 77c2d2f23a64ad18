//! Detects drift between a function's documentation comment and its
//! implementation: extracts (doc-comment, body) pairs from Rust source with a
//! structural query, fingerprints them, and caches assessor verdicts keyed by
//! that fingerprint so unchanged functions are never re-reviewed.

pub mod assistant;
pub mod cache;
pub mod json;
pub mod parser;
pub mod types;

pub use assistant::RoundState;
pub use cache::CacheEntry;
pub use cache::CacheStore;
pub use parser::CommentParser;
pub use types::DocumentationAssistant;
pub use types::FunctionData;
pub use types::Point;
