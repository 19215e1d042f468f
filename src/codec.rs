//! The extended Hamming(16,11) block code.
//!
//! Position `p` of a codeword (`p` in `0..16`) is bit `p` of its 16-bit word.
//! The eleven data bits stand at the positions that are not a power of two
//! (3, 5, 6, 7, 9, .., 15), data bit 0 at position 3. The check bit at position
//! 1, 2, 4 or 8 makes the positions whose index has that bit set even, and
//! position 0 makes the whole word even. Any single flipped bit is corrected,
//! any two flipped bits are detected. Three or more flipped bits may look like
//! one and be corrected wrongly: the code cannot tell them apart.
use vstd::prelude::*;
use crate::vec::{Bit, Vec};

verus! {

/// Bit `p` of `w`, as 0 or 1.
pub open spec fn bit(w: u16, p: u16) -> u16 {
    (w >> p) & 1
}

/// 1 when `w` has an odd number of set bits, else 0.
pub open spec fn parity(w: u16) -> u16 {
    bit(w, 0) ^ bit(w, 1) ^ bit(w, 2) ^ bit(w, 3) ^ bit(w, 4) ^ bit(w, 5) ^ bit(w, 6) ^ bit(w, 7)
        ^ bit(w, 8) ^ bit(w, 9) ^ bit(w, 10) ^ bit(w, 11) ^ bit(w, 12) ^ bit(w, 13) ^ bit(w, 14)
        ^ bit(w, 15)
}

/// The exclusive or of the positions of the set bits of `w`: bit `k` of the
/// syndrome is the parity of the positions whose index has bit `k` set.
pub open spec fn syndrome(w: u16) -> u16 {
    parity(w & 0xAAAA) | (parity(w & 0xCCCC) << 1u16) | (parity(w & 0xF0F0) << 2u16) | (parity(
        w & 0xFF00,
    ) << 3u16)
}

/// The eleven data bits of `w`, data bit 0 taken from position 3.
pub open spec fn data_bits(w: u16) -> u16 {
    bit(w, 3) | (bit(w, 5) << 1u16) | (bit(w, 6) << 2u16) | (bit(w, 7) << 3u16) | (bit(w, 9)
        << 4u16) | (bit(w, 10) << 5u16) | (bit(w, 11) << 6u16) | (bit(w, 12) << 7u16) | (bit(
        w,
        13,
    ) << 8u16) | (bit(w, 14) << 9u16) | (bit(w, 15) << 10u16)
}

/// A codeword that passes every parity check.
pub open spec fn is_valid(w: u16) -> bool {
    syndrome(w) == 0 && parity(w) == 0
}

/// A codeword that encodes `data`.
pub open spec fn encodes(w: u16, data: u16) -> bool {
    is_valid(w) && data_bits(w) == data
}

/// What decoding found in a codeword.
#[derive(Copy, Clone, Debug, PartialEq, Eq, Structural)]
pub enum DecodeStatus {
    /// Every parity check passed.
    Clean,
    /// The bit at this position was wrong and has been flipped back.
    CorrectedSingleBit(u8),
    /// An even number (two or more) of bits are wrong; the data is unreliable.
    UncorrectableMultiBit,
}

/// The data and status that decoding `w` gives.
pub open spec fn decode_spec(w: u16) -> (u16, DecodeStatus) {
    let s = syndrome(w);
    if parity(w) == 1 {
        (data_bits(w ^ (1u16 << s)), DecodeStatus::CorrectedSingleBit(s as u8))
    } else if s == 0 {
        (data_bits(w), DecodeStatus::Clean)
    } else {
        (data_bits(w), DecodeStatus::UncorrectableMultiBit)
    }
}

/// A codeword of sixteen bits: eleven data bits and five check bits.
#[derive(Copy, Clone, Debug, PartialEq, Eq, Structural)]
pub struct BitBlock {
    word: u16,
}

impl View for BitBlock {
    type V = u16;

    closed spec fn view(&self) -> u16 {
        self.word
    }
}

/// The parity of `w`, folded.
fn parity_of(w: u16) -> (r: u16)
    ensures
        r == parity(w),
{
    let a = w ^ (w >> 8u16);
    let b = a ^ (a >> 4u16);
    let c = b ^ (b >> 2u16);
    let d = c ^ (c >> 1u16);
    assert(((((w ^ (w >> 8u16)) ^ ((w ^ (w >> 8u16)) >> 4u16)) ^ (((w ^ (w >> 8u16)) ^ ((w ^ (w
        >> 8u16)) >> 4u16)) >> 2u16)) ^ ((((w ^ (w >> 8u16)) ^ ((w ^ (w >> 8u16)) >> 4u16)) ^ (((w
        ^ (w >> 8u16)) ^ ((w ^ (w >> 8u16)) >> 4u16)) >> 2u16)) >> 1u16)) & 1 == parity(w))
        by (bit_vector);
    d & 1
}

/// The syndrome of `w`.
fn syndrome_of(w: u16) -> (r: u16)
    ensures
        r == syndrome(w),
        r < 16,
{
    let r = parity_of(w & 0xAAAA) | (parity_of(w & 0xCCCC) << 1u16) | (parity_of(w & 0xF0F0)
        << 2u16) | (parity_of(w & 0xFF00) << 3u16);
    assert(syndrome(w) < 16) by (bit_vector);
    r
}

/// The data bits of `w`.
fn data_bits_of(w: u16) -> (r: u16)
    ensures
        r == data_bits(w),
        r < 2048,
{
    let r = ((w >> 3u16) & 1) | ((w >> 4u16) & 0xE) | ((w >> 5u16) & 0x7F0);
    assert(((w >> 3u16) & 1) | ((w >> 4u16) & 0xE) | ((w >> 5u16) & 0x7F0) == data_bits(w)
        && data_bits(w) < 2048) by (bit_vector);
    r
}

/// Spreading the data bits over their positions, then setting the four check
/// bits and the overall parity bit, gives a codeword that encodes `data`.
proof fn lemma_encoding(data: u16)
    requires
        data < 2048,
    ensures
        ({
            let s = ((data & 1) << 3u16) | ((data & 0xE) << 4u16) | ((data & 0x7F0) << 5u16);
            let c = s | (parity(s & 0xAAAA) << 1u16) | (parity(s & 0xCCCC) << 2u16) | (parity(
                s & 0xF0F0,
            ) << 4u16) | (parity(s & 0xFF00) << 8u16);
            encodes(c | parity(c), data)
        }),
{
    assert({
        let s = ((data & 1) << 3u16) | ((data & 0xE) << 4u16) | ((data & 0x7F0) << 5u16);
        let c = s | (parity(s & 0xAAAA) << 1u16) | (parity(s & 0xCCCC) << 2u16) | (parity(
            s & 0xF0F0,
        ) << 4u16) | (parity(s & 0xFF00) << 8u16);
        encodes(c | parity(c), data)
    }) by (bit_vector)
        requires
            data < 2048,
    ;
}

/// Two valid codewords with the same data bits are the same codeword.
pub proof fn lemma_encoding_unique(a: u16, b: u16)
    requires
        is_valid(a),
        is_valid(b),
        data_bits(a) == data_bits(b),
    ensures
        a == b,
{
    assert(a == b) by (bit_vector)
        requires
            is_valid(a),
            is_valid(b),
            data_bits(a) == data_bits(b),
    ;
}

/// A codeword that passes every check decodes cleanly to its data bits.
pub proof fn lemma_decode_valid(w: u16)
    requires
        is_valid(w),
    ensures
        decode_spec(w) == (data_bits(w), DecodeStatus::Clean),
{
}

/// Flipping any one bit of a codeword that encodes `data` is corrected:
/// decoding yields `data` and the position of the flipped bit.
pub proof fn lemma_single_bit_correction(w: u16, data: u16, p: u16)
    requires
        encodes(w, data),
        p < 16,
    ensures
        decode_spec(w ^ (1u16 << p)) == (data, DecodeStatus::CorrectedSingleBit(p as u8)),
{
    let e = w ^ (1u16 << p);
    assert(parity(e) == 1 && syndrome(e) == p && data_bits(e ^ (1u16 << syndrome(e))) == data)
        by (bit_vector)
        requires
            encodes(w, data),
            p < 16,
            e == w ^ (1u16 << p),
    ;
}

/// Flipping any two distinct bits of a codeword that encodes `data` is detected
/// and reported as uncorrectable, never as clean or as a correction.
pub proof fn lemma_double_bit_detection(w: u16, data: u16, p: u16, q: u16)
    requires
        encodes(w, data),
        p < 16,
        q < 16,
        p != q,
    ensures
        decode_spec(w ^ (1u16 << p) ^ (1u16 << q)).1 == DecodeStatus::UncorrectableMultiBit,
{
    let e = w ^ (1u16 << p) ^ (1u16 << q);
    assert(parity(e) == 0 && syndrome(e) != 0) by (bit_vector)
        requires
            encodes(w, data),
            p < 16,
            q < 16,
            p != q,
            e == w ^ (1u16 << p) ^ (1u16 << q),
    ;
}

/// The number of set bits of `w`.
pub open spec fn weight(w: u16) -> int {
    bit(w, 0) + bit(w, 1) + bit(w, 2) + bit(w, 3) + bit(w, 4) + bit(w, 5) + bit(w, 6) + bit(w, 7)
        + bit(w, 8) + bit(w, 9) + bit(w, 10) + bit(w, 11) + bit(w, 12) + bit(w, 13) + bit(w, 14)
        + bit(w, 15)
}

/// Codewords of different data differ in at least four positions: the code's
/// minimum distance is 4, so two flipped bits never reach another codeword nor
/// one position away from one.
pub proof fn lemma_minimum_distance(a: u16, da: u16, b: u16, db: u16)
    requires
        encodes(a, da),
        encodes(b, db),
        da != db,
    ensures
        weight(a ^ b) >= 4,
{
    let x = a ^ b;
    assert(is_valid(x) && x != 0) by (bit_vector)
        requires
            encodes(a, da),
            encodes(b, db),
            da != db,
            x == a ^ b,
    ;
    assert(weight(x) >= 4) by (bit_vector)
        requires
            is_valid(x),
            x != 0,
    ;
}

impl BitBlock {
    /// The all-zero codeword, which encodes eleven zero data bits.
    pub fn new() -> (r: BitBlock)
        ensures
            r@ == 0,
            encodes(r@, 0),
    {
        assert(encodes(0, 0)) by (bit_vector);
        BitBlock { word: 0 }
    }

    /// The codeword with the sixteen bits of `word`.
    pub fn from_word(word: u16) -> (r: BitBlock)
        ensures
            r@ == word,
    {
        BitBlock { word }
    }

    /// The sixteen bits of the codeword as a word.
    pub fn word(&self) -> (r: u16)
        ensures
            r == self@,
    {
        self.word
    }

    /// The codeword that protects the eleven bits of `data`.
    pub fn encode(data: u16) -> (r: BitBlock)
        requires
            data < 2048,
        ensures
            encodes(r@, data),
    {
        // data bit 0 to position 3, bits 1..4 to positions 5..8, bits 4..11 to 9..16
        let s = ((data & 1) << 3u16) | ((data & 0xE) << 4u16) | ((data & 0x7F0) << 5u16);
        let c = s | (parity_of(s & 0xAAAA) << 1u16) | (parity_of(s & 0xCCCC) << 2u16) | (parity_of(
            s & 0xF0F0,
        ) << 4u16) | (parity_of(s & 0xFF00) << 8u16);
        proof {
            lemma_encoding(data);
        }
        BitBlock { word: c | parity_of(c) }
    }

    /// The data bits of the codeword, corrected where one bit is wrong, and what
    /// decoding found.
    pub fn decode(&self) -> (r: (u16, DecodeStatus))
        ensures
            r == decode_spec(self@),
            r.0 < 2048,
    {
        let w = self.word;
        let s = syndrome_of(w);
        if parity_of(w) == 1 {
            (data_bits_of(w ^ (1u16 << s)), DecodeStatus::CorrectedSingleBit(s as u8))
        } else if s == 0 {
            (data_bits_of(w), DecodeStatus::Clean)
        } else {
            (data_bits_of(w), DecodeStatus::UncorrectableMultiBit)
        }
    }

    /// The sixteen bits of the codeword, position 0 first.
    pub fn read(&self) -> (r: Vec<Bit, 16>)
        ensures
            r@.len() == 16,
            forall|p: int| 0 <= p < 16 ==> (r@[p] == Bit::One) == (bit(self@, p as u16) == 1),
    {
        let mut r: Vec<Bit, 16> = Vec::new();
        let mut p: u16 = 0;
        while p < 16
            invariant
                p <= 16,
                r@.len() == p,
                forall|i: int| 0 <= i < p ==> (r@[i] == Bit::One) == (bit(self@, i as u16) == 1),
            decreases 16 - p,
        {
            // below capacity, so the push succeeds
            let _ = r.push(Bit::from_bool((self.word >> p) & 1 == 1));
            p = p + 1;
        }
        r
    }

    /// The codeword as two bytes, big-endian.
    pub fn to_bytes(&self) -> (r: [u8; 2])
        ensures
            r@ == seq![(self@ >> 8u16) as u8, self@ as u8],
    {
        let r = [(self.word >> 8u16) as u8, self.word as u8];
        assert(r@ =~= seq![(self@ >> 8u16) as u8, self@ as u8]);
        r
    }

    /// The codeword whose big-endian bytes are `hi` and `lo`.
    pub fn from_bytes(hi: u8, lo: u8) -> (r: BitBlock)
        ensures
            r@ == ((hi as u16) << 8u16) | (lo as u16),
            (r@ >> 8u16) as u8 == hi,
            r@ as u8 == lo,
    {
        let w = ((hi as u16) << 8u16) | (lo as u16);
        assert((((hi as u16) << 8u16) | (lo as u16)) >> 8u16 == hi as u16 && ((((hi as u16)
            << 8u16) | (lo as u16)) & 0xFF) == lo as u16) by (bit_vector);
        assert(w as u8 == (w & 0xFF) as u8) by (bit_vector);
        BitBlock { word: w }
    }
}

} // verus!
