use vstd::prelude::*;

pub mod chunker;
pub mod context;
pub mod docs;
pub mod file_search;
pub mod file_tree;
pub mod files;
pub mod history;
pub mod images;
pub mod indexer;
pub mod jira;
pub mod models;
pub mod order;
pub mod pattern;
pub mod rag;
pub mod repo;
pub mod search;
pub mod stream;
pub mod summary;
pub mod syntax;
pub mod templates;
pub mod text;
pub mod ticket;
