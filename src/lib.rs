//! An in-memory key-value engine: typed values, a keyspace with lazy expiry,
//! a command model, an execution engine and the request/reply wire codec.

pub mod assoc;
pub mod codec;
pub mod command;
pub mod engine;
pub mod executor;
pub mod hash_store;
pub mod keyspace;
pub mod laws;
pub mod list_store;
pub mod model;
pub mod range;
pub mod reply;
pub mod score;
pub mod set_store;
pub mod sorted_set_store;
pub mod string_store;
pub mod vector_store;
pub mod text;
