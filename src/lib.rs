//! A viewer, search and replace engine for very large text files.
//!
//! The library holds the logic: encoding detection, the line index, chunked
//! search with boundary overlap, and the streaming replacer. Mapping files,
//! threads and channels are left to the caller.
pub mod detect;
pub mod encoding;
pub mod file_reader;
pub mod flow;
pub mod line_indexer;
pub mod matcher;
pub mod replacer;
pub mod search_engine;
pub mod text;
pub mod view;
