use vstd::prelude::*;

verus! {

/// Why a decode or a payload conversion was refused.
#[derive(Debug, Clone, Copy, PartialEq, Eq, Structural)]
pub enum DecodeError {
    /// Nothing is left at the offset where a tag or a length must begin, or
    /// the length field of a record is cut short.
    InvalidInput,
    /// A declared length, or a run of continuation bytes, reaches past the
    /// end of the buffer.
    OutOfBounds,
    /// A payload does not convert to the requested type, or a varint would
    /// carry more than 64 bits.
    InvalidEncoding,
    /// The conversion is declared but not supported.
    NotImplemented,
}

} // verus!
