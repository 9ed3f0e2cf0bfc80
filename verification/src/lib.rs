//! The core of a small in-memory key-value service: the store with its
//! expiry rules, the command dispatcher, the reply encoding and the
//! snapshot that carries the data across a restart.

pub mod command;
pub mod connection;
pub mod laws;
pub mod rdb;
pub mod request;
pub mod response;
pub mod store;
pub mod text;
