//! An in-memory key-value server core speaking a RESP-style wire protocol:
//! a verified binary codec, a verified store and command dispatcher, and the
//! replication handshake state machine that lets a second instance attach as
//! a replica.

pub mod codec;
pub mod command;
pub mod num;
pub mod replication;
pub mod session;
pub mod store;
pub mod value;

pub use value::SpecValue;
pub use value::Value;
