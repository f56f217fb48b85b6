use vstd::prelude::*;
use vstd::slice::{slice_subrange, slice_to_vec};
use vstd::utf8::{decode_utf8, valid_utf8};

use crate::error::DecodeError;
use crate::tag::Tag;
use crate::varint::{lemma_truncated_varint_rejected, unzigzag, varint_scan, varint_value, Varint};

verus! {

/// The payload length that the length field of `k` bytes after the tag at
/// `at` declares. Like an integer payload, it is a zigzag varint.
pub open spec fn declared_length(b: Seq<u8>, at: int, k: nat) -> int {
    unzigzag(varint_value(b.subrange(at + 1, at + 1 + k)) as int)
}

/// What decoding a record at offset `at` of `b` gives: the byte count of its
/// length field and the payload length, or why it cannot be decoded.
pub open spec fn tlv_scan(b: Seq<u8>, at: int) -> Result<(nat, int), DecodeError> {
    if at < 0 || at >= b.len() {
        Err(DecodeError::InvalidInput)
    } else {
        match varint_scan(b, at + 1) {
            Ok(k) => {
                let n = declared_length(b, at, k);
                if n < 0 {
                    Err(DecodeError::InvalidEncoding)
                } else if at + 1 + k + n > b.len() {
                    Err(DecodeError::OutOfBounds)
                } else {
                    Ok((k, n))
                }
            },
            Err(DecodeError::InvalidEncoding) => Err(DecodeError::InvalidEncoding),
            Err(_) => Err(DecodeError::InvalidInput),
        }
    }
}

/// A record whose length field runs to the end of the buffer, every byte
/// after the tag carrying the continuation bit and fewer than ten of them, is
/// refused as invalid input.
pub proof fn lemma_truncated_length_rejected(b: Seq<u8>, at: int)
    requires
        0 <= at < b.len(),
        b.len() - (at + 1) < 10,
        forall|i: int| at < i < b.len() ==> b[i] >= 0x80,
    ensures
        tlv_scan(b, at) == Err::<(nat, int), DecodeError>(DecodeError::InvalidInput),
{
    if at + 1 < b.len() {
        lemma_truncated_varint_rejected(b, at + 1);
    }
}

/// A record whose declared length is more than the bytes left after its
/// length field is refused as out of bounds.
pub proof fn lemma_overlong_payload_rejected(b: Seq<u8>, at: int, k: nat)
    requires
        0 <= at < b.len(),
        varint_scan(b, at + 1) == Ok::<nat, DecodeError>(k),
        declared_length(b, at, k) >= 0,
        at + 1 + k + declared_length(b, at, k) > b.len(),
    ensures
        tlv_scan(b, at) == Err::<(nat, int), DecodeError>(DecodeError::OutOfBounds),
{
}

/// Relies on `String::from_utf8`: it accepts exactly the well-formed UTF-8
/// byte sequences, and the string it returns holds the characters they
/// encode.
#[verifier::external_body]
fn string_from_utf8(bytes: Vec<u8>) -> (r: Option<String>)
    ensures
        match r {
            Some(s) => valid_utf8(bytes@) && s@ == decode_utf8(bytes@),
            None => !valid_utf8(bytes@),
        },
{
    String::from_utf8(bytes).ok()
}

/// One decoded record: its tag, its payload length, an owned copy of its
/// payload, and the offset just past it in the buffer it came from.
#[derive(Debug)]
pub struct TLV {
    tag: Tag,
    len: i64,
    buf: Vec<u8>,
    pos: usize,
}

impl Default for TLV {
    fn default() -> (r: Self)
        ensures
            r.tag_byte() == 0,
            r.length() == 0,
            r.payload() == Seq::<u8>::empty(),
            r.cursor() == 0,
    {
        TLV { tag: Tag::new(0x00), len: 0, buf: Vec::new(), pos: 0 }
    }
}

impl TLV {
    pub closed spec fn tag_byte(&self) -> u8 {
        self.tag@
    }

    pub closed spec fn length(&self) -> int {
        self.len as int
    }

    pub closed spec fn payload(&self) -> Seq<u8> {
        self.buf@
    }

    pub closed spec fn cursor(&self) -> int {
        self.pos as int
    }

    /// The declared length is the payload's length.
    pub open spec fn wf(&self) -> bool {
        self.length() == self.payload().len()
    }

    /// This record is the one at `at` of `b`, with a length field of `k`
    /// bytes and a payload of `n` bytes.
    pub open spec fn decoded_from(&self, b: Seq<u8>, at: int, k: nat, n: int) -> bool {
        &&& self.tag_byte() == b[at]
        &&& self.length() == n
        &&& self.payload() == b.subrange(at + 1 + k, at + 1 + k + n)
        &&& self.cursor() == at + 1 + k + n
    }

    /// Decodes the record that starts at offset `pos` of `data`.
    pub fn from_data(data: &[u8], pos: usize) -> (r: Result<TLV, DecodeError>)
        ensures
            match tlv_scan(data@, pos as int) {
                Ok((k, n)) => match r {
                    Ok(t) => t.decoded_from(data@, pos as int, k, n) && t.wf(),
                    Err(_) => false,
                },
                Err(e) => r == Err::<TLV, DecodeError>(e),
            },
    {
        let mut tlv = TLV::default();
        match tlv.read(data, pos) {
            Ok(()) => Ok(tlv),
            Err(e) => Err(e),
        }
    }

    /// Decodes the record that starts at offset `pos` of `data` into `self`:
    /// the tag byte, then the length field, then a copy of the payload. On
    /// failure nothing changes.
    pub fn read(&mut self, data: &[u8], pos: usize) -> (r: Result<(), DecodeError>)
        ensures
            match tlv_scan(data@, pos as int) {
                Ok((k, n)) => {
                    &&& r == Ok::<(), DecodeError>(())
                    &&& final(self).decoded_from(data@, pos as int, k, n)
                    &&& final(self).wf()
                },
                Err(e) => r == Err::<(), DecodeError>(e) && *final(self) == *old(self),
            },
    {
        let len = data.len();
        if pos >= len {
            return Err(DecodeError::InvalidInput);
        }
        let mut lv = Varint::new();
        let delta = match lv.read(data, pos + 1) {
            Ok(d) => d,
            Err(DecodeError::InvalidEncoding) => {
                return Err(DecodeError::InvalidEncoding);
            },
            Err(_) => {
                return Err(DecodeError::InvalidInput);
            },
        };
        let n = lv.to_i64();
        if n < 0 {
            return Err(DecodeError::InvalidEncoding);
        }
        let start = pos + 1 + delta;
        if n as u64 > (len - start) as u64 {
            return Err(DecodeError::OutOfBounds);
        }
        let end = start + n as usize;
        self.tag = Tag::new(data[pos]);
        self.len = n;
        self.buf = slice_to_vec(slice_subrange(data, start, end));
        self.pos = end;
        Ok(())
    }

    /// The tag.
    pub fn tag(&self) -> (r: Tag)
        ensures
            r@ == self.tag_byte(),
    {
        self.tag
    }

    /// The declared payload length.
    pub fn len(&self) -> (r: i64)
        ensures
            r == self.length(),
    {
        self.len
    }

    /// The offset just past this record, where the next one begins.
    pub fn pos(&self) -> (r: usize)
        ensures
            r == self.cursor(),
    {
        self.pos
    }

    /// The payload as one signed varint that takes all of it.
    pub fn to_varint(&self) -> (r: Result<i64, DecodeError>)
        ensures
            r == (if varint_scan(self.payload(), 0) == Ok::<nat, DecodeError>(self.payload().len()) {
                Ok::<i64, DecodeError>(unzigzag(varint_value(self.payload()) as int) as i64)
            } else {
                Err(DecodeError::InvalidEncoding)
            }),
    {
        let mut v = Varint::new();
        match v.read(self.buf.as_slice(), 0) {
            Ok(k) => {
                if k == self.buf.len() {
                    assert(v@ =~= self.payload());
                    Ok(v.to_i64())
                } else {
                    Err(DecodeError::InvalidEncoding)
                }
            },
            Err(_) => Err(DecodeError::InvalidEncoding),
        }
    }

    /// The payload, unchanged.
    pub fn to_binary(&self) -> (r: &Vec<u8>)
        ensures
            r@ == self.payload(),
    {
        &self.buf
    }

    /// The payload as UTF-8 text.
    pub fn to_string(&self) -> (r: Result<String, DecodeError>)
        ensures
            match r {
                Ok(s) => valid_utf8(self.payload()) && s@ == decode_utf8(self.payload()),
                Err(e) => !valid_utf8(self.payload()) && e == DecodeError::InvalidEncoding,
            },
    {
        match string_from_utf8(slice_to_vec(self.buf.as_slice())) {
            Some(s) => Ok(s),
            None => Err(DecodeError::InvalidEncoding),
        }
    }

    /// The payload as a unique identifier: not supported.
    pub fn to_uuid(&self) -> (r: Result<(), DecodeError>)
        ensures
            r == Err::<(), DecodeError>(DecodeError::NotImplemented),
    {
        Err(DecodeError::NotImplemented)
    }
}

} // verus!
