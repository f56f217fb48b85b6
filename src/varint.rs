use vstd::prelude::*;

use vstd::slice::{slice_subrange, slice_to_vec};

use crate::error::DecodeError;
use crate::varint_element::VarintElement;

verus! {

/// The continuation bit of a varint byte.
pub const MSB: u8 = 0x80;

/// The seven payload bits of a varint byte.
const DROP_MSB: u8 = 0x7f;

/// The number that the 7-bit groups of `s` make, the first group least
/// significant.
pub open spec fn varint_value(s: Seq<u8>) -> nat
    decreases s.len(),
{
    if s.len() == 0 {
        0
    } else {
        (s[0] % 128) as nat + 128 * varint_value(s.drop_first())
    }
}

/// The minimal varint encoding of `v`.
pub open spec fn varint_encoding(v: nat) -> Seq<u8>
    decreases v,
{
    if v < 128 {
        seq![v as u8]
    } else {
        seq![(v % 128 + 128) as u8] + varint_encoding(v / 128)
    }
}

/// `s` is exactly one varint: every byte but the last has its continuation
/// bit set, and its groups carry at most 64 bits.
pub open spec fn is_varint(s: Seq<u8>) -> bool {
    &&& 1 <= s.len() <= 10
    &&& forall|i: int| 0 <= i < s.len() - 1 ==> s[i] >= 0x80
    &&& s.last() < 0x80
    &&& s.len() == 10 ==> s[9] <= 1
}

/// How many bytes from index `i` on have their continuation bit set.
pub open spec fn continuation_run(b: Seq<u8>, i: int) -> nat
    decreases b.len() - i,
{
    if 0 <= i < b.len() && b[i] >= 0x80 {
        1 + continuation_run(b, i + 1)
    } else {
        0
    }
}

/// What reading one varint at offset `at` of `b` gives: the number of bytes
/// it takes, or why there is none. An offset at or past the end is invalid
/// input; a tenth byte above 1 would carry more than 64 bits and is an
/// invalid encoding; running off the end before a byte without the
/// continuation bit is out of bounds.
pub open spec fn varint_scan(b: Seq<u8>, at: int) -> Result<nat, DecodeError> {
    if at < 0 || at >= b.len() {
        Err(DecodeError::InvalidInput)
    } else {
        let run = continuation_run(b, at);
        if run >= 9 && at + 9 < b.len() && b[at + 9] > 1 {
            Err(DecodeError::InvalidEncoding)
        } else if at + run == b.len() {
            Err(DecodeError::OutOfBounds)
        } else {
            Ok(run + 1)
        }
    }
}

/// `128` to the power `n`.
pub open spec fn pow128(n: nat) -> nat
    decreases n,
{
    if n == 0 {
        1
    } else {
        128 * pow128((n - 1) as nat)
    }
}

proof fn lemma_pow128_monotonic(m: nat, n: nat)
    requires
        m <= n,
    ensures
        pow128(m) <= pow128(n),
    decreases n,
{
    if m < n {
        lemma_pow128_monotonic(m, (n - 1) as nat);
    }
}

/// The encoding of anything below `2 * 128^j` has at most `j + 1` bytes, and
/// when it has exactly that many its last byte is 0 or 1.
proof fn lemma_encoding_shape(v: nat, j: nat)
    requires
        v < 2 * pow128(j),
    ensures
        varint_encoding(v).len() <= j + 1,
        varint_encoding(v).len() == j + 1 ==> varint_encoding(v).last() <= 1,
        forall|i: int|
            0 <= i < varint_encoding(v).len() - 1 ==> #[trigger] varint_encoding(v)[i] >= 0x80,
        varint_encoding(v).last() < 0x80,
        varint_encoding(v).len() == 1 || varint_encoding(v).last() != 0,
        varint_value(varint_encoding(v)) == v,
    decreases v,
{
    let e = varint_encoding(v);
    if v >= 128 {
        let rest = varint_encoding(v / 128);
        let first = (v % 128 + 128) as u8;
        assert(j > 0) by {
            if j == 0 {
                assert(pow128(0) == 1);
            }
        }
        assert(v / 128 < 2 * pow128((j - 1) as nat)) by (nonlinear_arith)
            requires
                v < 2 * pow128(j),
                pow128(j) == 128 * pow128((j - 1) as nat),
        ;
        lemma_encoding_shape(v / 128, (j - 1) as nat);
        assert(e == seq![first] + rest);
        assert(e.drop_first() =~= rest);
        assert forall|i: int| 0 <= i < e.len() - 1 implies #[trigger] e[i] >= 0x80 by {
            if i > 0 {
                assert(e[i] == rest[i - 1]);
            }
        }
        if rest.len() == 1 {
            assert(v / 128 >= 1);
        }
        assert(first % 128 == v % 128);
        assert(varint_value(e) == v % 128 + 128 * (v / 128));
        assert(v == v % 128 + 128 * (v / 128));
    } else {
        assert(e.drop_first() =~= Seq::<u8>::empty());
        assert(varint_value(e.drop_first()) == 0);
    }
}

/// Anything that fits in 64 bits encodes to a well-formed varint that gives it
/// back, with no all-zero group at the end.
proof fn lemma_encoding_is_varint(v: nat)
    requires
        v <= u64::MAX,
    ensures
        is_varint(varint_encoding(v)),
        varint_value(varint_encoding(v)) == v,
        varint_encoding(v).len() == 1 || varint_encoding(v).last() != 0,
{
    reveal_with_fuel(pow128, 10);
    assert(pow128(9) == 0x8000_0000_0000_0000);
    lemma_encoding_shape(v, 9);
}


/// The zigzag image of `n`: 0, -1, 1, -2, 2, ... become 0, 1, 2, 3, 4, ...
pub open spec fn zigzag(n: int) -> int {
    if n >= 0 {
        2 * n
    } else {
        -2 * n - 1
    }
}

/// The inverse of `zigzag` on the naturals.
pub open spec fn unzigzag(u: int) -> int {
    if u % 2 == 0 {
        u / 2
    } else {
        -(u / 2) - 1
    }
}

/// The groups of a varint never exceed what its last group allows.
proof fn lemma_value_bound(t: Seq<u8>)
    requires
        t.len() >= 1,
    ensures
        varint_value(t) < ((t.last() % 128) as nat + 1) * pow128((t.len() - 1) as nat),
    decreases t.len(),
{
    let r = t.drop_first();
    if t.len() > 1 {
        lemma_value_bound(r);
        assert(r.last() == t.last());
        let l = (t.last() % 128) as nat + 1;
        let p = pow128((r.len() - 1) as nat);
        let vr = varint_value(r);
        let g = (t[0] % 128) as nat;
        assert(pow128((t.len() - 1) as nat) == 128 * p);
        assert(varint_value(t) == g + 128 * vr);
        assert(g + 128 * vr < l * (128 * p)) by (nonlinear_arith)
            requires
                vr < l * p,
                g < 128,
        ;
        assert(varint_value(t) < l * pow128((t.len() - 1) as nat));
    } else {
        assert(r =~= Seq::<u8>::empty());
        assert(varint_value(r) == 0);
        assert(pow128(0) == 1);
        assert(t.last() == t[0]);
        assert(varint_value(t) == (t[0] % 128) as nat);
        assert(varint_value(t) < ((t.last() % 128) as nat + 1) * 1);
    }
}

/// Every tail of a well-formed varint stands for a value that fits in 64 bits.
proof fn lemma_suffix_fits(s: Seq<u8>, i: int)
    requires
        is_varint(s),
        0 <= i < s.len(),
    ensures
        varint_value(s.subrange(i, s.len() as int)) <= u64::MAX,
{
    let t = s.subrange(i, s.len() as int);
    lemma_value_bound(t);
    let l = (t.last() % 128) as nat + 1;
    let p = pow128((t.len() - 1) as nat);
    reveal_with_fuel(pow128, 10);
    if t.len() == 10 {
        assert(t.last() == s[9]);
        assert(p == 0x8000_0000_0000_0000);
        assert(l * p <= 2 * 0x8000_0000_0000_0000) by (nonlinear_arith)
            requires
                l <= 2,
                p == 0x8000_0000_0000_0000,
        ;
    } else {
        lemma_pow128_monotonic((t.len() - 1) as nat, 8);
        assert(pow128(8) == 0x0100_0000_0000_0000);
        assert(l * p <= 128 * 0x0100_0000_0000_0000) by (nonlinear_arith)
            requires
                l <= 128,
                p <= 0x0100_0000_0000_0000,
        ;
    }
}

proof fn lemma_run_in_varint(s: Seq<u8>, tail: Seq<u8>, i: int)
    requires
        is_varint(s),
        0 <= i < s.len(),
    ensures
        continuation_run(s + tail, i) == s.len() - 1 - i,
    decreases s.len() - i,
{
    assert((s + tail)[i] == s[i]);
    if i < s.len() - 1 {
        lemma_run_in_varint(s, tail, i + 1);
    }
}

/// A well-formed varint at the front of a buffer is read whole, whatever
/// bytes follow it.
proof fn lemma_scan_varint_prefix(s: Seq<u8>, tail: Seq<u8>)
    requires
        is_varint(s),
    ensures
        varint_scan(s + tail, 0) == Ok::<nat, DecodeError>(s.len()),
        (s + tail).subrange(0, s.len() as int) == s,
{
    lemma_run_in_varint(s, tail, 0);
    if s.len() == 10 {
        assert((s + tail)[9] == s[9]);
    }
    assert((s + tail).subrange(0, s.len() as int) =~= s);
}

/// Reading back the encoding of any unsigned value takes exactly the bytes of
/// that encoding, whatever follows them, and gives the value back.
pub proof fn lemma_unsigned_round_trip(v: u64, tail: Seq<u8>)
    ensures
        ({
            let bytes = varint_encoding(v as nat);
            &&& varint_scan(bytes + tail, 0) == Ok::<nat, DecodeError>(bytes.len())
            &&& (bytes + tail).subrange(0, bytes.len() as int) == bytes
            &&& varint_value(bytes) == v
        }),
{
    lemma_encoding_is_varint(v as nat);
    lemma_scan_varint_prefix(varint_encoding(v as nat), tail);
}

/// Reading back the zigzag encoding of any signed value takes exactly the
/// bytes of that encoding, whatever follows them, and gives the value back.
pub proof fn lemma_signed_round_trip(n: i64, tail: Seq<u8>)
    ensures
        ({
            let bytes = varint_encoding(zigzag(n as int) as nat);
            &&& varint_scan(bytes + tail, 0) == Ok::<nat, DecodeError>(bytes.len())
            &&& (bytes + tail).subrange(0, bytes.len() as int) == bytes
            &&& unzigzag(varint_value(bytes) as int) == n
        }),
{
    let u = zigzag(n as int);
    assert(0 <= u <= u64::MAX);
    lemma_unsigned_round_trip(u as u64, tail);
}

/// Every encoding is a well-formed varint, and its last, most significant
/// group is all zero only in the single byte that encodes zero.
pub proof fn lemma_encoding_minimal(v: u64)
    ensures
        is_varint(varint_encoding(v as nat)),
        varint_encoding(v as nat).last() == 0 ==> v == 0 && varint_encoding(v as nat) == seq![0u8],
{
    lemma_encoding_is_varint(v as nat);
}

proof fn lemma_run_to_end(b: Seq<u8>, i: int)
    requires
        0 <= i <= b.len(),
        forall|j: int| i <= j < b.len() ==> b[j] >= 0x80,
    ensures
        continuation_run(b, i) == b.len() - i,
    decreases b.len() - i,
{
    if i < b.len() {
        lemma_run_to_end(b, i + 1);
    }
}

/// A buffer that ends inside a varint, every byte from `at` on carrying the
/// continuation bit and fewer than ten of them, is refused as out of bounds.
pub proof fn lemma_truncated_varint_rejected(b: Seq<u8>, at: int)
    requires
        0 <= at < b.len(),
        b.len() - at < 10,
        forall|i: int| at <= i < b.len() ==> b[i] >= 0x80,
    ensures
        varint_scan(b, at) == Err::<nat, DecodeError>(DecodeError::OutOfBounds),
{
    lemma_run_to_end(b, at);
}

/// Relies on `Vec::capacity`: a vector always has room for the elements it
/// holds.
#[verifier::external_body]
fn vec_capacity(v: &Vec<u8>) -> (r: usize)
    ensures
        r >= v@.len(),
{
    v.capacity()
}

/// Maps a signed value to an unsigned one, `(n << 1) ^ (n >> 63)`.
pub fn zigzag_encode(from: i64) -> (r: u64)
    ensures
        r == zigzag(from as int),
{
    let r = ((from << 1) ^ (from >> 63)) as u64;
    assert(if from >= 0 { r == (2 * from) as u64 } else { r == (-2 * from - 1) as u64 }) by (bit_vector)
        requires
            r == ((from << 1) ^ (from >> 63)) as u64,
    ;
    r
}

/// Maps an unsigned value back to a signed one, `(u >> 1) ^ -(u & 1)`.
pub fn zigzag_decode(from: u64) -> (r: i64)
    ensures
        r == unzigzag(from as int),
{
    let low: u64 = from & 1;
    assert(low <= 1) by (bit_vector)
        requires
            low == from & 1,
    ;
    let mask: u64 = (-(low as i64)) as u64;
    let r: i64 = ((from >> 1) ^ mask) as i64;
    assert(if from % 2 == 0 { r == (from / 2) as i64 } else { r == -((from / 2) as i64) - 1 })
        by (bit_vector)
        requires
            low == from & 1,
            mask == (-(low as i64)) as u64,
            r == ((from >> 1) ^ mask) as i64,
    ;
    r
}

/// The bytes of one varint, or none yet.
#[derive(Debug)]
pub struct Varint {
    vec: Vec<u8>,
}

impl View for Varint {
    type V = Seq<u8>;

    closed spec fn view(&self) -> Seq<u8> {
        self.vec@
    }
}

impl Default for Varint {
    fn default() -> (r: Self)
        ensures
            r@ == Seq::<u8>::empty(),
    {
        Varint { vec: Vec::new() }
    }
}

impl Varint {
    /// Holds no bytes, or exactly one well-formed varint.
    pub open spec fn wf(&self) -> bool {
        self@.len() == 0 || is_varint(self@)
    }

    /// Create an empty varint.
    pub fn new() -> (r: Varint)
        ensures
            r@ == Seq::<u8>::empty(),
            r.wf(),
    {
        Varint { vec: Vec::new() }
    }

    /// The raw bytes.
    pub fn into_bytes(&self) -> (r: &Vec<u8>)
        ensures
            r@ == self@,
    {
        &self.vec
    }

    /// Reads one varint that starts at offset `at` of `val` and returns the
    /// number of bytes it takes. On failure nothing changes.
    pub fn read(&mut self, val: &[u8], at: usize) -> (r: Result<usize, DecodeError>)
        ensures
            match varint_scan(val@, at as int) {
                Ok(k) => {
                    &&& r == Ok::<usize, DecodeError>(k as usize)
                    &&& at + k <= val@.len()
                    &&& final(self)@ == val@.subrange(at as int, at + k)
                    &&& is_varint(final(self)@)
                },
                Err(e) => r == Err::<usize, DecodeError>(e) && *final(self) == *old(self),
            },
    {
        let len = val.len();
        if at >= len {
            return Err(DecodeError::InvalidInput);
        }
        let mut i: usize = at;
        loop
            invariant
                at <= i <= len,
                len == val@.len(),
                at < len,
                i - at <= 9,
                forall|j: int| at <= j < i ==> val@[j] >= 0x80,
                continuation_run(val@, at as int) == (i - at) + continuation_run(val@, i as int),
                *self == *old(self),
            decreases len - i,
        {
            if i == len {
                return Err(DecodeError::OutOfBounds);
            }
            let mut element = VarintElement::default();
            element.set_value(val[i]);
            if i - at == 9 {
                if val[i] > 1 {
                    return Err(DecodeError::InvalidEncoding);
                }
            }
            if i - at == 9 || !element.has_next() {
                let ghost bytes = val@.subrange(at as int, i + 1);
                assert forall|j: int| 0 <= j < bytes.len() - 1 implies bytes[j] >= 0x80 by {
                    assert(bytes[j] == val@[at + j]);
                }
                self.vec = slice_to_vec(slice_subrange(val, at, i + 1));
                return Ok(i - at + 1);
            }
            i += 1;
        }
    }

    /// How many bytes the varint has room for without growing.
    pub fn capacity(&self) -> (r: usize)
        ensures
            r >= self@.len(),
    {
        vec_capacity(&self.vec)
    }

    /// The length of this varint, in bytes.
    pub fn len(&self) -> (r: usize)
        ensures
            r == self@.len(),
    {
        self.vec.len()
    }

    /// The signed value, through the zigzag mapping.
    pub fn to_i64(&self) -> (r: i64)
        requires
            self.wf(),
        ensures
            r == unzigzag(varint_value(self@) as int),
    {
        zigzag_decode(self.to_u64())
    }

    /// Replaces the bytes with the encoding of `data`, through the zigzag
    /// mapping.
    pub fn from_i64(&mut self, data: i64)
        ensures
            final(self)@ == varint_encoding(zigzag(data as int) as nat),
            final(self).wf(),
    {
        self.from_u64(zigzag_encode(data));
    }

    /// The unsigned value of the groups.
    pub fn to_u64(&self) -> (r: u64)
        requires
            self.wf(),
        ensures
            r == varint_value(self@),
    {
        let len = self.vec.len();
        let mut result: u64 = 0;
        let mut i: usize = len;
        assert(self@.subrange(len as int, len as int) =~= Seq::<u8>::empty());
        while i > 0
            invariant
                i <= len,
                len == self@.len(),
                self.wf(),
                result == varint_value(self@.subrange(i as int, len as int)),
            decreases i,
        {
            i -= 1;
            let byte = self.vec[i];
            let group = (byte & DROP_MSB) as u64;
            assert(byte & 0x7f == byte % 128) by (bit_vector);
            proof {
                let t = self@.subrange(i as int, len as int);
                assert(t.drop_first() =~= self@.subrange(i + 1, len as int));
                lemma_suffix_fits(self@, i as int);
            }
            result = group + result * 128;
        }
        assert(self@.subrange(0, len as int) =~= self@);
        result
    }

    /// Replaces the bytes with the minimal encoding of `data`.
    pub fn from_u64(&mut self, data: u64)
        ensures
            final(self)@ == varint_encoding(data as nat),
            final(self).wf(),
    {
        let mut out: Vec<u8> = Vec::new();
        let mut val = data;
        while val > DROP_MSB as u64
            invariant
                out@ + varint_encoding(val as nat) == varint_encoding(data as nat),
            decreases val,
        {
            let element: u8 = (val as u8 & DROP_MSB) | MSB;
            assert(element == (val % 128 + 128) as u8) by (bit_vector)
                requires
                    element == (val as u8 & 0x7f) | 0x80,
            ;
            let ghost before = out@;
            out.push(element);
            assert(val >> 7 == val / 128) by (bit_vector);
            val = val >> 7;
            assert(before + varint_encoding((val * 128 + element % 128) as nat) =~= out@
                + varint_encoding(val as nat));
        }
        out.push(val as u8);
        proof {
            lemma_encoding_is_varint(data as nat);
        }
        self.vec = out;
    }

    /// Whether the first byte is exactly 1; false when empty.
    pub fn to_bool(&self) -> (r: bool)
        ensures
            r == (self@.len() > 0 && self@[0] == 1),
    {
        if self.vec.len() == 0 {
            false
        } else {
            self.vec[0] == 1
        }
    }
}

} // verus!
