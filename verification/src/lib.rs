//! The core of a language server that has functions implemented by an
//! agent: the mirror of the open documents, the locator that finds a function
//! in a text by its first line and its braces, the registry of the jobs that
//! are under way on each document, and what is decided when a job starts and
//! when it ends.
//!
//! The library does no input or output. The agent runs outside it, and so
//! does the exchange with the editor.

pub mod amp;
pub mod backend;
pub mod claude_code;
pub mod config;
pub mod coordinator;
pub mod document_store;
pub mod handlers;
pub mod job_queue;
pub mod job_tracker;
pub mod locator;
pub mod lsp_utils;
pub mod opencode;
pub mod rewrite;
pub mod text;
pub mod utils;
