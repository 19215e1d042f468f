//! Fixed-capacity bit buffers and their relation to bytes.
use vstd::prelude::*;
use crate::vec::{Bit, CapacityExceeded, Vec};

verus! {

/// Bit `t` of byte `b`, counted from the most significant (`t` in `0..8`).
pub open spec fn byte_bit(b: u8, t: int) -> Bit {
    if (b >> ((7 - t) as u8)) & 1 == 1 {
        Bit::One
    } else {
        Bit::Zero
    }
}

/// The bits of a byte sequence, eight per byte, most significant bit first.
pub open spec fn bytes_to_bits(bytes: Seq<u8>) -> Seq<Bit> {
    Seq::new(8 * bytes.len(), |k: int| byte_bit(bytes[k / 8], k % 8))
}

/// 1 for `One`, 0 for `Zero`.
pub open spec fn bit_u8(b: Bit) -> u8 {
    if b == Bit::One {
        1
    } else {
        0
    }
}

/// The byte whose bits, most significant first, are `bits[8 * j .. 8 * j + 8]`.
pub open spec fn byte_at(bits: Seq<Bit>, j: int) -> u8 {
    let k = 8 * j;
    (bit_u8(bits[k]) << 7u8) | (bit_u8(bits[k + 1]) << 6u8) | (bit_u8(bits[k + 2]) << 5u8) | (
    bit_u8(bits[k + 3]) << 4u8) | (bit_u8(bits[k + 4]) << 3u8) | (bit_u8(bits[k + 5]) << 2u8) | (
    bit_u8(bits[k + 6]) << 1u8) | bit_u8(bits[k + 7])
}

/// The bytes that a bit sequence packs, eight bits per byte, most significant bit first.
pub open spec fn bits_to_bytes(bits: Seq<Bit>) -> Seq<u8> {
    Seq::new(bits.len() / 8, |j: int| byte_at(bits, j))
}

/// A byte is rebuilt from its eight bits.
proof fn lemma_byte_from_bits(b: u8)
    ensures
        byte_at(bytes_to_bits(seq![b]), 0) == b,
{
    let s = bytes_to_bits(seq![b]);
    assert forall|t: int| 0 <= t < 8 implies s[t] == byte_bit(b, t) by {
        assert(t / 8 == 0 && t % 8 == t);
    }
    let ghost b0 = bit_u8(byte_bit(b, 0));
    assert(((b >> 7u8) & 1 == 1 ==> 1u8 << 7u8 == b & 0x80) && ((b >> 7u8) & 1 != 1 ==> b & 0x80
        == 0u8)) by (bit_vector);
    assert(byte_at(s, 0) == b) by {
        assert(s[0] == byte_bit(b, 0) && s[1] == byte_bit(b, 1) && s[2] == byte_bit(b, 2) && s[3]
            == byte_bit(b, 3) && s[4] == byte_bit(b, 4) && s[5] == byte_bit(b, 5) && s[6]
            == byte_bit(b, 6) && s[7] == byte_bit(b, 7));
        assert((if (b >> 7u8) & 1 == 1 { 1u8 } else { 0u8 }) << 7u8 | (if (b >> 6u8) & 1 == 1 {
            1u8
        } else {
            0u8
        }) << 6u8 | (if (b >> 5u8) & 1 == 1 { 1u8 } else { 0u8 }) << 5u8 | (if (b >> 4u8) & 1 == 1 {
            1u8
        } else {
            0u8
        }) << 4u8 | (if (b >> 3u8) & 1 == 1 { 1u8 } else { 0u8 }) << 3u8 | (if (b >> 2u8) & 1 == 1 {
            1u8
        } else {
            0u8
        }) << 2u8 | (if (b >> 1u8) & 1 == 1 { 1u8 } else { 0u8 }) << 1u8 | (if (b >> 0u8) & 1 == 1 {
            1u8
        } else {
            0u8
        }) == b) by (bit_vector);
    }
}

/// Packing the bits of a byte sequence gives the bytes back.
pub proof fn lemma_bits_to_bytes_inverse(bytes: Seq<u8>)
    ensures
        bits_to_bytes(bytes_to_bits(bytes)) == bytes,
{
    let bits = bytes_to_bits(bytes);
    assert forall|j: int| 0 <= j < bytes.len() implies #[trigger] byte_at(bits, j) == bytes[j] by {
        let one = bytes_to_bits(seq![bytes[j]]);
        lemma_byte_from_bits(bytes[j]);
        assert forall|t: int| 0 <= t < 8 implies bits[8 * j + t] == one[t] by {
            assert((8 * j + t) / 8 == j && (8 * j + t) % 8 == t) by (nonlinear_arith)
                requires
                    0 <= t < 8,
            ;
            assert(t / 8 == 0 && t % 8 == t);
        }
    }
    assert(bits.len() / 8 == bytes.len()) by (nonlinear_arith)
        requires
            bits.len() == 8 * bytes.len(),
    ;
    assert(bits_to_bytes(bits) =~= bytes);
}

/// Unpacking the bytes that a bit sequence packs gives the bits back, when
/// their number is a multiple of eight.
pub proof fn lemma_bytes_to_bits_inverse(bits: Seq<Bit>)
    requires
        bits.len() % 8 == 0,
    ensures
        bytes_to_bits(bits_to_bytes(bits)) == bits,
{
    let bytes = bits_to_bytes(bits);
    let back = bytes_to_bits(bytes);
    assert(8 * (bits.len() / 8) == bits.len()) by (nonlinear_arith)
        requires
            bits.len() % 8 == 0,
    ;
    assert forall|k: int| 0 <= k < bits.len() implies back[k] == bits[k] by {
        let j = k / 8;
        let t = k % 8;
        assert(0 <= j < bits.len() / 8 && k == 8 * j + t && 0 <= t < 8) by (nonlinear_arith)
            requires
                0 <= k < bits.len(),
                bits.len() % 8 == 0,
                j == k / 8,
                t == k % 8,
        ;
        let b0 = bit_u8(bits[8 * j]);
        let b1 = bit_u8(bits[8 * j + 1]);
        let b2 = bit_u8(bits[8 * j + 2]);
        let b3 = bit_u8(bits[8 * j + 3]);
        let b4 = bit_u8(bits[8 * j + 4]);
        let b5 = bit_u8(bits[8 * j + 5]);
        let b6 = bit_u8(bits[8 * j + 6]);
        let b7 = bit_u8(bits[8 * j + 7]);
        let b = byte_at(bits, j);
        assert(b == (b0 << 7u8) | (b1 << 6u8) | (b2 << 5u8) | (b3 << 4u8) | (b4 << 3u8) | (b5
            << 2u8) | (b6 << 1u8) | b7);
        assert({
            let x = (b0 << 7u8) | (b1 << 6u8) | (b2 << 5u8) | (b3 << 4u8) | (b4 << 3u8) | (b5
                << 2u8) | (b6 << 1u8) | b7;
            &&& (x >> 7u8) & 1 == b0
            &&& (x >> 6u8) & 1 == b1
            &&& (x >> 5u8) & 1 == b2
            &&& (x >> 4u8) & 1 == b3
            &&& (x >> 3u8) & 1 == b4
            &&& (x >> 2u8) & 1 == b5
            &&& (x >> 1u8) & 1 == b6
            &&& (x >> 0u8) & 1 == b7
        }) by (bit_vector)
            requires
                b0 <= 1,
                b1 <= 1,
                b2 <= 1,
                b3 <= 1,
                b4 <= 1,
                b5 <= 1,
                b6 <= 1,
                b7 <= 1,
        ;
        assert(back[k] == byte_bit(b, t));
    }
    assert(back =~= bits);
}

/// A buffer of at most `N` bits.
#[derive(Debug)]
pub struct BitVec<const N: usize> {
    bits: Vec<Bit, N>,
}

impl<const N: usize> View for BitVec<N> {
    type V = Seq<Bit>;

    closed spec fn view(&self) -> Seq<Bit> {
        self.bits@
    }
}

impl<const N: usize> BitVec<N> {
    /// An empty buffer.
    pub fn new() -> (r: Self)
        ensures
            r@ == Seq::<Bit>::empty(),
    {
        BitVec { bits: Vec::new() }
    }

    /// The number of bits held.
    pub fn len(&self) -> (r: usize)
        ensures
            r == self@.len(),
            r <= N,
    {
        self.bits.len()
    }

    /// The number of bits the buffer can hold, `N`.
    pub fn capacity(&self) -> (r: usize)
        ensures
            r == N,
    {
        self.bits.capacity()
    }

    /// The bit at index `i`.
    pub fn get(&self, i: usize) -> (r: Bit)
        requires
            i < self@.len(),
        ensures
            r == self@[i as int],
    {
        self.bits.get(i)
    }

    /// Appends `bit`, or fails and leaves the buffer as it was when it holds `N` bits.
    pub fn push(&mut self, bit: Bit) -> (r: Result<(), CapacityExceeded>)
        ensures
            old(self)@.len() < N ==> r is Ok && final(self)@ == old(self)@.push(bit),
            old(self)@.len() >= N ==> r is Err && final(self)@ == old(self)@,
    {
        self.bits.push(bit)
    }

    /// The bits of `bytes`, most significant bit of each byte first; fails when
    /// they are more than `N`.
    pub fn from_bytes(bytes: &[u8]) -> (r: Result<Self, CapacityExceeded>)
        ensures
            r is Ok <==> bytes@.len() * 8 <= N,
            r matches Ok(v) ==> v@ == bytes_to_bits(bytes@),
    {
        if bytes.len() > N / 8 {
            return Err(CapacityExceeded);
        }
        let mut v: BitVec<N> = BitVec::new();
        let total: usize = bytes.len() * 8;
        let mut k: usize = 0;
        while k < total
            invariant
                total == 8 * bytes@.len(),
                total <= N,
                k <= total,
                v@.len() == k,
                forall|i: int| 0 <= i < k ==> v@[i] == byte_bit(bytes@[i / 8], i % 8),
            decreases total - k,
        {
            let b: u8 = bytes[k / 8];
            let shift: u8 = (7 - k % 8) as u8;
            let bit = Bit::from_bool((b >> shift) & 1 == 1);
            // below capacity, so the push succeeds
            let _ = v.push(bit);
            assert(v@[k as int] == byte_bit(bytes@[k as int / 8], k as int % 8)) by {
                assert((b >> shift) & 1 == 1 <==> (b >> ((7 - k as int % 8) as u8)) & 1 == 1);
            }
            k = k + 1;
        }
        assert(v@ =~= bytes_to_bits(bytes@));
        Ok(v)
    }

    /// The byte held by bits `8 * j .. 8 * j + 8`, most significant bit first.
    pub fn byte(&self, j: usize) -> (r: u8)
        requires
            8 * j + 8 <= self@.len(),
        ensures
            r == byte_at(self@, j as int),
    {
        // brings in the bound of the length by `N`, so that `k + 7` fits
        let n = self.len();
        let k = 8 * j;
        let b0: u8 = if self.get(k).is_one() { 1 } else { 0 };
        let b1: u8 = if self.get(k + 1).is_one() { 1 } else { 0 };
        let b2: u8 = if self.get(k + 2).is_one() { 1 } else { 0 };
        let b3: u8 = if self.get(k + 3).is_one() { 1 } else { 0 };
        let b4: u8 = if self.get(k + 4).is_one() { 1 } else { 0 };
        let b5: u8 = if self.get(k + 5).is_one() { 1 } else { 0 };
        let b6: u8 = if self.get(k + 6).is_one() { 1 } else { 0 };
        let b7: u8 = if self.get(k + 7).is_one() { 1 } else { 0 };
        (b0 << 7u8) | (b1 << 6u8) | (b2 << 5u8) | (b3 << 4u8) | (b4 << 3u8) | (b5 << 2u8) | (b6
            << 1u8) | b7
    }
}

} // verus!
