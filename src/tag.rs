use vstd::prelude::*;

verus! {

/// The type of a record's payload, as its tag byte names it.
#[derive(Debug, Clone, Copy, PartialEq, Eq, Structural)]
pub enum WireType {
    /// UTF-8 text.
    String,
    /// A signed integer, as one zigzag varint.
    Integer,
    /// An IEEE 754 number.
    Float,
    /// A unique identifier.
    UUID,
    /// A status code.
    SCode,
    /// Raw bytes.
    Binary,
}

/// The tag byte of each wire type.
pub open spec fn wire_code(w: WireType) -> u8 {
    match w {
        WireType::String => 0x00,
        WireType::Integer => 0x01,
        WireType::Float => 0x02,
        WireType::UUID => 0x03,
        WireType::SCode => 0x04,
        WireType::Binary => 0x80,
    }
}

/// The one tag byte of a record. Any byte is kept as it is; only a payload
/// conversion decides what it accepts.
#[derive(Debug, Clone, Copy, PartialEq, Eq, Structural)]
pub struct Tag {
    code: u8,
}

impl View for Tag {
    type V = u8;

    closed spec fn view(&self) -> u8 {
        self.code
    }
}

impl Default for Tag {
    fn default() -> (r: Self)
        ensures
            r@ == 0,
    {
        Tag { code: 0 }
    }
}

impl Tag {
    /// Wraps a raw tag byte, unchecked.
    pub fn new(code: u8) -> (r: Tag)
        ensures
            r@ == code,
    {
        Tag { code }
    }

    /// Takes a raw tag byte, unchecked.
    pub fn read_type(&mut self, code: u8)
        ensures
            final(self)@ == code,
    {
        self.code = code;
    }

    pub fn set_type(&mut self, wire_type: WireType)
        ensures
            final(self)@ == wire_code(wire_type),
    {
        self.code = match wire_type {
            WireType::String => 0x00,
            WireType::Integer => 0x01,
            WireType::Float => 0x02,
            WireType::UUID => 0x03,
            WireType::SCode => 0x04,
            WireType::Binary => 0x80,
        };
    }

    /// The raw tag byte.
    pub fn get_type(&self) -> (r: u8)
        ensures
            r == self@,
    {
        self.code
    }
}

} // verus!
