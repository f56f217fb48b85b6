use vstd::prelude::*;

use crate::varint::MSB;

verus! {

/// One byte of a varint: seven payload bits under a continuation bit.
#[derive(Debug, Clone, Copy, PartialEq, Eq, Structural)]
pub struct VarintElement {
    code: u8,
}

impl View for VarintElement {
    type V = u8;

    closed spec fn view(&self) -> u8 {
        self.code
    }
}

impl Default for VarintElement {
    fn default() -> (r: Self)
        ensures
            r@ == 0,
    {
        VarintElement { code: 0 }
    }
}

impl VarintElement {
    pub fn set_value(&mut self, data: u8)
        ensures
            final(self)@ == data,
    {
        self.code = data;
    }

    /// Whether another byte of the same varint follows this one.
    pub fn has_next(&self) -> (r: bool)
        ensures
            r == (self@ >= 0x80),
    {
        let code = self.code;
        assert((code & 0x80 == 0x80) == (code >= 0x80)) by (bit_vector);
        code & MSB == MSB
    }
}

} // verus!
