//! MagGraph: a Markdown-backed knowledge graph for AI agents.
//!
//! Nodes are Markdown documents with YAML frontmatter; edges come from the
//! frontmatter `links` list and from `[[wikilinks]]` in the body.
pub mod text;
pub mod order;
pub mod path;
pub mod wikilink;
pub mod error;
pub mod config;
pub mod lakehouse;
pub mod yaml;
pub mod node;
pub mod query;
pub mod index;
pub mod graph;
pub mod security;
pub mod ip;
pub mod sync;
pub mod batch;
pub mod memory;
pub mod recall;
pub mod agent;
pub mod ui;
pub mod cli;
pub mod hybrid;
