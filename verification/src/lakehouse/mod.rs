//! Lakehouse mode: nodes that point at external content, and its resolution.
pub mod cache;
pub mod content;
pub mod reader;
pub mod resolver;
pub mod uri;
