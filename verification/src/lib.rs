//! An in-memory key/value store speaking a Redis-like line protocol.
//!
//! The crate provides the protocol codec (bytes-as-characters to message
//! trees and back), the store of string and list values, and the command
//! dispatcher that interprets a decoded message, touches the store, and
//! produces the response message.

pub mod db;
pub mod laws;
pub mod message;
pub mod model;
pub mod num;
pub mod parser;
pub mod resp;
pub mod resp_data;
pub mod store;
pub mod text;
