//! Bit streams: ordered, finite sequences of bits, stored compactly.
//!
//! Bit 0 of a stream is the first bit on the wire. Where a stream is packed
//! into bytes, bit `i` of the stream is bit `i % 8` of byte `i / 8`, counted
//! from the least significant bit.

use bitvec::order::Lsb0;
use bitvec::vec::BitVec;
use vstd::prelude::*;

verus! {

/// The greatest number of bits that one stream can hold.
pub const MAX_BITS: usize = usize::MAX / 8;

/// An ordered, finite sequence of bits, held in a `bitvec::vec::BitVec`.
///
/// Verus does not look inside: what the stream holds is `stream_bits`, which
/// is also its view.
#[verifier::external_body]
#[derive(PartialEq, Eq, Debug, Hash)]
pub struct BitStream {
    bits: BitVec<usize, Lsb0>,
}

/// The bits that a stream holds, in order.
pub uninterp spec fn stream_bits(s: BitStream) -> Seq<bool>;

impl View for BitStream {
    type V = Seq<bool>;

    open spec fn view(&self) -> Seq<bool> {
        stream_bits(*self)
    }
}

/// Bit `k` of a byte, counted from the least significant bit.
pub open spec fn bit_of(byte: u8, k: int) -> bool {
    (byte >> (k as u8)) & 1 == 1
}

/// The bits of a stream that was packed into `bytes` and holds `n` bits.
pub open spec fn unpack(bytes: Seq<u8>, n: nat) -> Seq<bool> {
    Seq::new(n, |i: int| bit_of(bytes[i / 8], i % 8))
}

/// Bit `i` of `bits`, or 0 where the stream has ended.
pub open spec fn bit_or_zero(bits: Seq<bool>, i: int) -> bool {
    0 <= i < bits.len() && bits[i]
}

/// A byte with bit `k` set if `b` holds, and no other bit set.
pub open spec fn bit_mask(b: bool, k: int) -> u8 {
    if b {
        1u8 << (k as u8)
    } else {
        0u8
    }
}

/// The byte whose lowest `k` bits are the bits of `bits` from `start` on, the
/// rest being 0.
pub open spec fn byte_upto(bits: Seq<bool>, start: int, k: int) -> u8
    decreases k,
{
    if k <= 0 {
        0u8
    } else {
        byte_upto(bits, start, k - 1) | bit_mask(bit_or_zero(bits, start + k - 1), k - 1)
    }
}

/// The byte that holds the eight bits of `bits` from `start` on; bits past the
/// end of the stream are 0.
pub open spec fn byte_at(bits: Seq<bool>, start: int) -> u8 {
    byte_upto(bits, start, 8)
}

/// The number of bytes that `n` bits take.
pub open spec fn bytes_for(n: nat) -> nat {
    ((n + 7) / 8) as nat
}

/// The bytes into which `bits` is packed; the unused bits of the last byte
/// are 0.
pub open spec fn pack(bits: Seq<bool>) -> Seq<u8> {
    Seq::new(bytes_for(bits.len()), |j: int| byte_at(bits, 8 * j))
}

proof fn lemma_or_mask(acc: u8, b: bool, k: u8, m: u8)
    by (bit_vector)
    requires
        k < 8,
        m < 8,
    ensures
        ((acc | (if b { 1u8 << k } else { 0u8 })) >> m) & 1 == 1 <==> (((acc >> m) & 1 == 1) || (b
            && m == k)),
{
}

proof fn lemma_zero_bits(m: u8)
    by (bit_vector)
    requires
        m < 8,
    ensures
        (0u8 >> m) & 1 == 0,
{
}

/// Bit `m` of `byte_upto(bits, start, k)` is bit `start + m` of the stream
/// where `m < k`, and 0 above.
pub proof fn lemma_byte_upto_bits(bits: Seq<bool>, start: int, k: int, m: int)
    requires
        0 <= k <= 8,
        0 <= m < 8,
    ensures
        bit_of(byte_upto(bits, start, k), m) == (m < k && bit_or_zero(bits, start + m)),
    decreases k,
{
    if k <= 0 {
        lemma_zero_bits(m as u8);
    } else {
        lemma_byte_upto_bits(bits, start, k - 1, m);
        lemma_or_mask(
            byte_upto(bits, start, k - 1),
            bit_or_zero(bits, start + k - 1),
            (k - 1) as u8,
            m as u8,
        );
    }
}

/// A packed stream takes one byte for each eight bits, the last of them
/// begun or full.
pub proof fn lemma_packed_len(bits: Seq<bool>)
    ensures
        pack(bits).len() == (bits.len() + 7) / 8,
{
}

/// Packing a stream into bytes and reading the same number of bits back
/// gives the stream again.
pub proof fn lemma_pack_unpack(bits: Seq<bool>)
    ensures
        unpack(pack(bits), bits.len()) == bits,
{
    let back = unpack(pack(bits), bits.len());
    assert forall|i: int| 0 <= i < bits.len() implies back[i] == bits[i] by {
        lemma_byte_upto_bits(bits, 8 * (i / 8), 8, i % 8);
    }
    assert(back =~= bits);
}

impl Clone for BitStream {
    /// `BitVec::clone`: a stream that holds the same bits.
    #[verifier::external_body]
    fn clone(&self) -> (r: BitStream)
        ensures
            stream_bits(r) == stream_bits(*self),
    {
        BitStream { bits: self.bits.clone() }
    }
}

impl BitStream {
    /// `BitVec::new`: a stream that holds no bit.
    #[verifier::external_body]
    fn raw_new() -> (r: BitStream)
        ensures
            stream_bits(r) == Seq::<bool>::empty(),
    {
        BitStream { bits: BitVec::new() }
    }

    /// `BitVec::repeat`: `len` copies of `bit`. The call panics where `len`
    /// is more than a stream can hold.
    #[verifier::external_body]
    fn raw_repeat(bit: bool, len: usize) -> (r: BitStream)
        requires
            len <= MAX_BITS,
        ensures
            stream_bits(r) == Seq::new(len as nat, |i: int| bit),
    {
        BitStream { bits: BitVec::repeat(bit, len) }
    }

    /// `BitVec::len`: the number of bits held, which never exceeds
    /// `MAX_BITS`, the most that the vector's handle can encode.
    #[verifier::external_body]
    fn raw_len(&self) -> (n: usize)
        ensures
            n == stream_bits(*self).len(),
            n <= MAX_BITS,
    {
        self.bits.len()
    }

    /// Indexing a `BitVec` by a position: the bit there. The call panics
    /// where the position is not below the length.
    #[verifier::external_body]
    fn raw_get(&self, i: usize) -> (b: bool)
        requires
            i < stream_bits(*self).len(),
        ensures
            b == stream_bits(*self)[i as int],
    {
        self.bits[i]
    }

    /// `BitVec::push`: the bit is added at the end. The call panics where
    /// the vector is full.
    #[verifier::external_body]
    fn raw_push(&mut self, b: bool)
        requires
            stream_bits(*old(self)).len() < MAX_BITS,
        ensures
            stream_bits(*final(self)) == stream_bits(*old(self)).push(b),
    {
        self.bits.push(b)
    }

    /// `BitVec::extend_from_bitslice`: the bits of `other` are added at the
    /// end, in order. The call panics where the sum of the lengths is more
    /// than a stream can hold.
    #[verifier::external_body]
    fn raw_extend(&mut self, other: &BitStream)
        requires
            stream_bits(*old(self)).len() + stream_bits(*other).len() <= MAX_BITS,
        ensures
            stream_bits(*final(self)) == stream_bits(*old(self)) + stream_bits(*other),
    {
        self.bits.extend_from_bitslice(other.bits.as_bitslice())
    }

    /// An empty stream.
    pub fn new() -> (r: BitStream)
        ensures
            r@ == Seq::<bool>::empty(),
    {
        BitStream::raw_new()
    }

    /// A stream of `len` bits, each equal to `bit`.
    pub fn repeat(bit: bool, len: usize) -> (r: BitStream)
        requires
            len <= MAX_BITS,
        ensures
            r@ == Seq::new(len as nat, |i: int| bit),
    {
        BitStream::raw_repeat(bit, len)
    }

    /// The number of bits in the stream.
    pub fn len(&self) -> (n: usize)
        ensures
            n == self@.len(),
            n <= MAX_BITS,
    {
        self.raw_len()
    }

    /// Bit `i` of the stream.
    pub fn get(&self, i: usize) -> (b: bool)
        requires
            i < self@.len(),
        ensures
            b == self@[i as int],
    {
        self.raw_get(i)
    }

    /// Adds one bit at the end.
    pub fn push(&mut self, b: bool)
        requires
            old(self)@.len() < MAX_BITS,
        ensures
            final(self)@ == old(self)@.push(b),
    {
        self.raw_push(b)
    }

    /// Adds the bits of `other` at the end.
    pub fn extend_from_bitslice(&mut self, other: &BitStream)
        requires
            old(self)@.len() + other@.len() <= MAX_BITS,
        ensures
            final(self)@ == old(self)@ + other@,
    {
        self.raw_extend(other)
    }

    /// The stream that holds the given bits, in order.
    pub fn from_bools(bools: &[bool]) -> (r: BitStream)
        requires
            bools@.len() <= MAX_BITS,
        ensures
            r@ == bools@,
    {
        let mut r = BitStream::raw_new();
        let mut i: usize = 0;
        while i < bools.len()
            invariant
                i <= bools@.len() <= MAX_BITS,
                r@ == bools@.take(i as int),
            decreases bools@.len() - i,
        {
            r.raw_push(bools[i]);
            i += 1;
            assert(r@ =~= bools@.take(i as int));
        }
        assert(bools@.take(i as int) =~= bools@);
        r
    }

    /// The bits of the stream, in order.
    pub fn to_bools(&self) -> (r: Vec<bool>)
        ensures
            r@ == self@,
    {
        let n = self.raw_len();
        let mut r: Vec<bool> = Vec::new();
        let mut i: usize = 0;
        while i < n
            invariant
                n == self@.len(),
                i <= n,
                r@ == self@.take(i as int),
            decreases n - i,
        {
            r.push(self.raw_get(i));
            i += 1;
            assert(r@ =~= self@.take(i as int));
        }
        assert(self@.take(i as int) =~= self@);
        r
    }

    /// The first `nbits` bits packed in `bytes`, least significant bit of
    /// each byte first.
    pub fn from_bytes(bytes: &[u8], nbits: usize) -> (r: BitStream)
        requires
            nbits <= 8 * bytes@.len(),
            nbits <= MAX_BITS,
        ensures
            r@ == unpack(bytes@, nbits as nat),
    {
        let r = BitStream::from_bytes_range(bytes, 0, nbits);
        proof {
            assert(r@ =~= unpack(bytes@, nbits as nat));
        }
        r
    }

    /// Bits `from..to` of the bits packed in `bytes`, least significant bit
    /// of each byte first.
    pub fn from_bytes_range(bytes: &[u8], from: usize, to: usize) -> (r: BitStream)
        requires
            from <= to <= 8 * bytes@.len(),
            to <= MAX_BITS,
        ensures
            r@ == unpack(bytes@, to as nat).subrange(from as int, to as int),
    {
        let mut r = BitStream::raw_new();
        let mut i: usize = from;
        while i < to
            invariant
                from <= i <= to <= MAX_BITS,
                to <= 8 * bytes@.len(),
                r@ == unpack(bytes@, to as nat).subrange(from as int, i as int),
            decreases to - i,
        {
            let b = byte_bit(bytes[i / 8], (i % 8) as u8);
            r.raw_push(b);
            i += 1;
            assert(r@ =~= unpack(bytes@, to as nat).subrange(from as int, i as int));
        }
        r
    }

    /// The stream packed into bytes, least significant bit of each byte
    /// first; the unused bits of the last byte are 0.
    pub fn to_bytes(&self) -> (r: Vec<u8>)
        ensures
            r@ == pack(self@),
    {
        let n = self.raw_len();
        let nbytes = (n + 7) / 8;
        let mut r: Vec<u8> = Vec::new();
        let mut j: usize = 0;
        while j < nbytes
            invariant
                n == self@.len(),
                n <= MAX_BITS,
                nbytes == bytes_for(n as nat),
                j <= nbytes,
                r@.len() == j,
                forall|t: int| 0 <= t < j ==> r@[t] == byte_at(self@, 8 * t),
            decreases nbytes - j,
        {
            let byte = self.byte_of(8 * j, 8);
            r.push(byte);
            j += 1;
        }
        assert(r@ =~= pack(self@));
        r
    }

    /// The byte whose lowest `count` bits are the bits of the stream from
    /// `start` on, the rest being 0; bits past the end of the stream are 0.
    pub fn byte_of(&self, start: usize, count: u8) -> (byte: u8)
        requires
            start <= self@.len(),
            count <= 8,
        ensures
            byte == byte_upto(self@, start as int, count as int),
    {
        let n = self.raw_len();
        let mut byte: u8 = 0;
        let mut k: u8 = 0;
        while k < count
            invariant
                n == self@.len(),
                n <= MAX_BITS,
                start <= n,
                k <= count <= 8,
                byte == byte_upto(self@, start as int, k as int),
            decreases count - k,
        {
            let here: bool = start + (k as usize) < n && self.raw_get(start + (k as usize));
            assert(here == bit_or_zero(self@, start + k));
            if here {
                byte = byte | (1u8 << k);
            } else {
                assert(byte | 0u8 == byte) by (bit_vector);
            }
            k += 1;
        }
        byte
    }
}

/// Bit `k` of a byte, counted from the least significant bit.
pub fn byte_bit(byte: u8, k: u8) -> (b: bool)
    requires
        k < 8,
    ensures
        b == bit_of(byte, k as int),
{
    (byte >> k) & 1 == 1
}

} // verus!
