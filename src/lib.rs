//! Tag-Length-Value framing over LEB128 varints with a zigzag mapping for
//! signed values.
//!
//! A record is one tag byte, a varint giving the payload length, and that many
//! payload bytes. Every decoder reports malformed or short input as a
//! `DecodeError` and never reads past the end of its buffer.

pub mod error;
pub mod record;
pub mod tag;
pub mod varint;
pub mod varint_element;

pub use error::DecodeError;
pub use record::TLV;
pub use tag::{Tag, WireType};
pub use varint::Varint;
pub use varint_element::VarintElement;
