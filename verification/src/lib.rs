//! Compare the result sets of two queries run against two relational data
//! sources and report the rows that exist on one side but not the other.
//!
//! The crate is organised around four pieces: a canonical value encoder
//! (`value`), a row fingerprinter and renderer (`row`), a streaming
//! symmetric-difference engine (`engine`), and a formatter for the final
//! outcome (`format`). Around them stand the connection-string and
//! command-line configuration helpers (`dsn`, `cli`).

pub mod cli;
pub mod dsn;
pub mod engine;
pub mod foreign_text;
pub mod format;
pub mod laws;
pub mod pending;
pub mod row;
pub mod text;
pub mod value;
