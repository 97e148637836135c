//! Text preparation, chunking, request framing and reply reading for
//! retrieval-augmented question answering over PDF documents.
//!
//! - `text`: characters, white space, trimming, splitting, joining, lines
//!   and previews.
//! - `chunking`: fixed-size chunks with overlap, and paragraph chunks.
//! - `load`: chunking strategies and the numbered texts a document stores.
//! - `json`, `response`: a model of JSON replies and what is read from them.
//! - `statements`: database statements and search addresses.
//! - `prompt`, `numbers`: model prompts, retrieved-chunk contexts and
//!   decimal numbers.
//! - `command`: the command line.
//! - `ids`: random record keys.

pub mod chunking;
pub mod command;
pub mod ids;
pub mod json;
pub mod load;
pub mod numbers;
pub mod prompt;
pub mod response;
pub mod statements;
pub mod text;
