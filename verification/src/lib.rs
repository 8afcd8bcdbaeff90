//! Client-side codec and transport framing for the Bolt wire protocol.
//!
//! The crate models the protocol's value and message schema as plain data
//! types, gives their binary encoding an exact mathematical specification,
//! and proves that the executable encoder and decoder follow it, including
//! the round-trip laws relating the two.

pub mod codec;
pub mod decode;
pub mod encode;
pub mod error;
pub mod frame;
pub mod handshake;
pub mod message;
pub mod roundtrip;
pub mod value;
pub mod wire;

pub use error::Error;
pub use message::{AckFailure, Init, Message};
pub use value::{Node, Path, Relationship, UnboundRelationship, Value};
