//! A small RESP (REdis Serialization Protocol) server library: frame
//! validation and parsing, command decoding, an in-memory key/value engine
//! and the helpers around them.

pub mod text;
pub mod frame;
pub mod connection;
pub mod cmd;
pub mod store;
pub mod utils;
pub mod db;
pub mod cli;
pub mod engine;
pub mod protocol;
pub mod parser;
