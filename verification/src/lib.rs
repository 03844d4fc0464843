//! Client-side core of a Pact broker command-line tool.
//!
//! The crate models hypermedia links and their template expansion, the
//! selector and matrix-query grammar of the broker's compatibility matrix,
//! the poll-while-unknown retry engine, the deployability decision,
//! and the output rendering, each with a verified contract. Network I/O
//! and argument parsing live outside the library.

pub mod broker;
pub mod config;
pub mod errors;
pub mod evaluate;
pub mod gate;
pub mod hal;
pub mod json;
pub mod link;
pub mod matrix;
pub mod patterns;
pub mod query;
pub mod render;
pub mod retry;
pub mod selector;
pub mod strutil;
