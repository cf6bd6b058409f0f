//! Symbol indexing for source projects and a framed client for language servers.

pub mod framing;
pub mod grammar;
pub mod indexer;
pub mod json;
pub mod llm;
pub mod lsp;
pub mod memory;
pub mod parser;
pub mod syntax;
pub mod text;
pub mod tree;
