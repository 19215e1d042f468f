//! Framing: a record's bits, padded to a multiple of eleven, are cut into
//! eleven-bit groups and each group is sent as one codeword.
use vstd::prelude::*;
use crate::bitvec::{BitVec, bits_to_bytes, lemma_bits_to_bytes_inverse};
use crate::codec::{
    BitBlock, DecodeStatus, decode_spec, encodes, lemma_decode_valid, lemma_encoding_unique,
    lemma_single_bit_correction,
};
use crate::remote_id::{
    MalformedRecord, RECORD_BITS, RemoteID, is_well_formed, lemma_layout_well_formed,
    lemma_record_bytes_injective, record_bits, record_bytes,
};
use crate::vec::Bit;

verus! {

/// The number of codewords of a framed record: 488 bits, eleven per codeword.
pub const MESSAGE_BLOCKS: usize = 45;

/// The number of data bits of a framed record, padding included.
pub const PAYLOAD_BITS: usize = 495;

/// Bit `k` of `bits` as 0 or 1, with 0 past the end (the padding).
pub open spec fn padded_bit(bits: Seq<Bit>, k: int) -> u16 {
    if 0 <= k < bits.len() && bits[k] == Bit::One {
        1
    } else {
        0
    }
}

/// The eleven data bits of group `i`: bit `11 * i + j` of the padded
/// sequence is data bit `j`, so the group's first bit goes to the codeword's
/// first data position.
#[verifier::opaque]
pub open spec fn group_value(bits: Seq<Bit>, i: int) -> u16 {
    let k = 11 * i;
    padded_bit(bits, k) | (padded_bit(bits, k + 1) << 1u16) | (padded_bit(bits, k + 2) << 2u16) | (
    padded_bit(bits, k + 3) << 3u16) | (padded_bit(bits, k + 4) << 4u16) | (padded_bit(bits, k + 5)
        << 5u16) | (padded_bit(bits, k + 6) << 6u16) | (padded_bit(bits, k + 7) << 7u16) | (
    padded_bit(bits, k + 8) << 8u16) | (padded_bit(bits, k + 9) << 9u16) | (padded_bit(
        bits,
        k + 10,
    ) << 10u16)
}

/// Each codeword of `words` encodes the matching group of `bits`.
pub open spec fn is_framing_of(words: Seq<u16>, bits: Seq<Bit>) -> bool {
    forall|i: int| 0 <= i < words.len() ==> encodes(#[trigger] words[i], group_value(bits, i))
}

/// Data bit `j` of the eleven data bits `d`.
pub open spec fn data_bit(d: u16, j: int) -> Bit {
    if (d >> (j as u16)) & 1 == 1 {
        Bit::One
    } else {
        Bit::Zero
    }
}

/// The data bits that decoding `words` yields, eleven per codeword, in order.
pub open spec fn payload_bits(words: Seq<u16>) -> Seq<Bit> {
    Seq::new(11 * words.len(), |k: int| data_bit(decode_spec(words[k / 11]).0, k % 11))
}

/// The record's bits among the decoded data bits: all but the padding.
pub open spec fn record_payload(words: Seq<u16>) -> Seq<Bit> {
    payload_bits(words).subrange(0, RECORD_BITS as int)
}

/// Decoding `w` finds an error that it cannot correct.
pub open spec fn is_uncorrectable(w: u16) -> bool {
    decode_spec(w).1 is UncorrectableMultiBit
}

/// Decoding `w` corrects one bit.
pub open spec fn is_corrected(w: u16) -> bool {
    decode_spec(w).1 is CorrectedSingleBit
}

/// The two ways unframing fails.
#[derive(Copy, Clone, Debug, PartialEq, Eq, Structural)]
pub enum FramingError {
    /// The codeword at `block_index`, the first such, holds an error that
    /// cannot be corrected.
    UnrecoverableChannel { block_index: usize },
    /// Every codeword decoded, but the record they hold is malformed.
    InvalidRecord,
}

/// A record received, and whether any codeword needed a correction.
#[derive(Copy, Clone, Debug, PartialEq, Eq)]
pub struct Reception {
    pub record: RemoteID,
    pub corrected: bool,
}

/// What unframing the codewords `words` returns.
pub open spec fn unframe_outcome(words: Seq<u16>, r: Result<Reception, FramingError>) -> bool {
    if exists|i: int| 0 <= i < words.len() && is_uncorrectable(#[trigger] words[i]) {
        r matches Err(FramingError::UnrecoverableChannel { block_index }) && block_index
            < words.len() && is_uncorrectable(words[block_index as int]) && forall|j: int|
            0 <= j < block_index ==> !is_uncorrectable(#[trigger] words[j])
    } else if !is_well_formed(bits_to_bytes(record_payload(words))) {
        r == Err::<Reception, FramingError>(FramingError::InvalidRecord)
    } else {
        r matches Ok(rx) && record_bits(rx.record) == record_payload(words) && rx.corrected == (
        exists|i: int| 0 <= i < words.len() && is_corrected(#[trigger] words[i]))
    }
}

/// The bytes of `words`, two per codeword, big-endian.
pub open spec fn words_to_bytes(words: Seq<u16>) -> Seq<u8> {
    Seq::new(
        2 * words.len(),
        |k: int|
            if k % 2 == 0 {
                (words[k / 2] >> 8u16) as u8
            } else {
                words[k / 2] as u8
            },
    )
}

/// A sequence of `N` codewords.
#[derive(Copy, Clone, Debug, PartialEq, Eq)]
pub struct Message<const N: usize> {
    blocks: [BitBlock; N],
}

impl<const N: usize> View for Message<N> {
    type V = Seq<u16>;

    closed spec fn view(&self) -> Seq<u16> {
        Seq::new(N as nat, |i: int| self.blocks@[i]@)
    }
}

/// Bit `k` of `bits` as 0 or 1, with 0 past the end.
fn padded<const M: usize>(bits: &BitVec<M>, k: usize) -> (r: u16)
    ensures
        r == padded_bit(bits@, k as int),
        r <= 1,
{
    if k < bits.len() && bits.get(k).is_one() {
        1
    } else {
        0
    }
}

/// The eleven data bits of group `i` of `bits`.
fn group<const M: usize>(bits: &BitVec<M>, i: usize) -> (r: u16)
    requires
        11 * i + 11 <= usize::MAX,
    ensures
        r == group_value(bits@, i as int),
        r < 2048,
{
    let k = 11 * i;
    let b0 = padded(bits, k);
    let b1 = padded(bits, k + 1);
    let b2 = padded(bits, k + 2);
    let b3 = padded(bits, k + 3);
    let b4 = padded(bits, k + 4);
    let b5 = padded(bits, k + 5);
    let b6 = padded(bits, k + 6);
    let b7 = padded(bits, k + 7);
    let b8 = padded(bits, k + 8);
    let b9 = padded(bits, k + 9);
    let b10 = padded(bits, k + 10);
    proof {
        reveal(group_value);
    }
    assert(b0 | (b1 << 1u16) | (b2 << 2u16) | (b3 << 3u16) | (b4 << 4u16) | (b5 << 5u16) | (b6
        << 6u16) | (b7 << 7u16) | (b8 << 8u16) | (b9 << 9u16) | (b10 << 10u16) < 2048)
        by (bit_vector)
        requires
            b0 <= 1 && b1 <= 1 && b2 <= 1 && b3 <= 1 && b4 <= 1 && b5 <= 1 && b6 <= 1 && b7 <= 1
                && b8 <= 1 && b9 <= 1 && b10 <= 1,
    ;
    b0 | (b1 << 1u16) | (b2 << 2u16) | (b3 << 3u16) | (b4 << 4u16) | (b5 << 5u16) | (b6
        << 6u16) | (b7 << 7u16) | (b8 << 8u16) | (b9 << 9u16) | (b10 << 10u16)
}

impl<const N: usize> Message<N> {
    /// The message of `N` all-zero codewords.
    pub fn new() -> (r: Self)
        ensures
            r@ == Seq::new(N as nat, |i: int| 0u16),
    {
        let r = Message { blocks: [BitBlock::new();N] };
        assert(r@ =~= Seq::new(N as nat, |i: int| 0u16));
        r
    }

    /// The codeword at index `i`.
    pub fn block(&self, i: usize) -> (r: BitBlock)
        requires
            i < N,
        ensures
            r@ == self@[i as int],
    {
        self.blocks[i]
    }

    /// The message that protects `buffer`: group `i` of its bits, padded with
    /// zero bits, is encoded as codeword `i`.
    pub fn from<const M: usize>(buffer: &BitVec<M>) -> (r: Self)
        requires
            buffer@.len() <= 11 * N,
            11 * N <= usize::MAX,
        ensures
            r@.len() == N,
            is_framing_of(r@, buffer@),
    {
        let mut blocks = [BitBlock::new();N];
        let mut i: usize = 0;
        while i < N
            invariant
                i <= N,
                11 * N <= usize::MAX,
                forall|ii: int| 0 <= ii < i ==> encodes(blocks@[ii]@, group_value(buffer@, ii)),
            decreases N - i,
        {
            let d = group(buffer, i);
            blocks[i] = BitBlock::encode(d);
            i = i + 1;
        }
        Message { blocks }
    }

    /// The message as bytes: two per codeword, big-endian, in order. Laid end
    /// to end, the pairs are `words_to_bytes` of the message.
    pub fn to_bytes(&self) -> (r: [[u8; 2]; N])
        ensures
            forall|i: int|
                0 <= i < N ==> #[trigger] r@[i]@ == words_to_bytes(self@).subrange(2 * i, 2 * i + 2),
    {
        let mut out = [[0u8;2];N];
        let mut i: usize = 0;
        while i < N
            invariant
                i <= N,
                forall|j: int|
                    0 <= j < i ==> #[trigger] out@[j]@ == words_to_bytes(self@).subrange(
                        2 * j,
                        2 * j + 2,
                    ),
            decreases N - i,
        {
            out[i] = self.blocks[i].to_bytes();
            proof {
                let ii = i as int;
                assert((2 * ii) / 2 == ii && (2 * ii) % 2 == 0);
                assert((2 * ii + 1) / 2 == ii && (2 * ii + 1) % 2 == 1);
                assert(out@[ii]@ =~= words_to_bytes(self@).subrange(2 * ii, 2 * ii + 2));
            }
            i = i + 1;
        }
        out
    }

    /// The message whose bytes are `bytes`, when they are two per codeword.
    pub fn from_bytes(bytes: &[u8]) -> (r: Option<Self>)
        ensures
            r is Some <==> bytes@.len() == 2 * N,
            r matches Some(m) ==> words_to_bytes(m@) == bytes@,
    {
        let n = bytes.len();
        if n / 2 != N || n % 2 != 0 {
            return None;
        }
        let mut blocks = [BitBlock::new();N];
        let mut i: usize = 0;
        while i < N
            invariant
                i <= N,
                bytes@.len() == 2 * N,
                n == 2 * N,
                forall|k: int|
                    0 <= k < 2 * i ==> words_to_bytes(Seq::new(N as nat, |j: int| blocks@[j]@))[k]
                        == bytes@[k],
            decreases N - i,
        {
            let b = BitBlock::from_bytes(bytes[2 * i], bytes[2 * i + 1]);
            blocks[i] = b;
            i = i + 1;
        }
        let m = Message { blocks };
        assert(words_to_bytes(m@) =~= bytes@);
        Some(m)
    }
}

/// Data bit `j` of group `i` is bit `11 * i + j` of the padded sequence.
proof fn lemma_group_bits(bits: Seq<Bit>, i: int)
    ensures
        forall|j: int|
            0 <= j < 11 ==> #[trigger] data_bit(group_value(bits, i), j) == (if padded_bit(
                bits,
                11 * i + j,
            ) == 1 {
                Bit::One
            } else {
                Bit::Zero
            }),
{
    let k = 11 * i;
    let b0 = padded_bit(bits, k);
    let b1 = padded_bit(bits, k + 1);
    let b2 = padded_bit(bits, k + 2);
    let b3 = padded_bit(bits, k + 3);
    let b4 = padded_bit(bits, k + 4);
    let b5 = padded_bit(bits, k + 5);
    let b6 = padded_bit(bits, k + 6);
    let b7 = padded_bit(bits, k + 7);
    let b8 = padded_bit(bits, k + 8);
    let b9 = padded_bit(bits, k + 9);
    let b10 = padded_bit(bits, k + 10);
    let x = group_value(bits, i);
    reveal(group_value);
    assert(x == b0 | (b1 << 1u16) | (b2 << 2u16) | (b3 << 3u16) | (b4 << 4u16) | (b5
        << 5u16) | (b6 << 6u16) | (b7 << 7u16) | (b8 << 8u16) | (b9 << 9u16) | (b10 << 10u16));
    assert({
        let y = b0 | (b1 << 1u16) | (b2 << 2u16) | (b3 << 3u16) | (b4 << 4u16) | (b5
            << 5u16) | (b6 << 6u16) | (b7 << 7u16) | (b8 << 8u16) | (b9 << 9u16) | (b10 << 10u16);
        &&& (y >> 0u16) & 1 == b0
        &&& (y >> 1u16) & 1 == b1
        &&& (y >> 2u16) & 1 == b2
        &&& (y >> 3u16) & 1 == b3
        &&& (y >> 4u16) & 1 == b4
        &&& (y >> 5u16) & 1 == b5
        &&& (y >> 6u16) & 1 == b6
        &&& (y >> 7u16) & 1 == b7
        &&& (y >> 8u16) & 1 == b8
        &&& (y >> 9u16) & 1 == b9
        &&& (y >> 10u16) & 1 == b10
    }) by (bit_vector)
        requires
            b0 <= 1 && b1 <= 1 && b2 <= 1 && b3 <= 1 && b4 <= 1 && b5 <= 1 && b6 <= 1 && b7 <= 1
                && b8 <= 1 && b9 <= 1 && b10 <= 1,
    ;
    assert forall|j: int| 0 <= j < 11 implies #[trigger] data_bit(x, j) == (if padded_bit(
        bits,
        k + j,
    ) == 1 {
        Bit::One
    } else {
        Bit::Zero
    }) by {
        if j == 0 {
        } else if j == 1 {
        } else if j == 2 {
        } else if j == 3 {
        } else if j == 4 {
        } else if j == 5 {
        } else if j == 6 {
        } else if j == 7 {
        } else if j == 8 {
        } else if j == 9 {
        } else {
        }
    }
}

/// When every codeword decodes to the data of the matching group of a record's
/// bits, the record's bits are the first 488 decoded bits.
proof fn lemma_payload_is_record(record: RemoteID, words: Seq<u16>)
    requires
        words.len() == MESSAGE_BLOCKS,
        forall|i: int|
            0 <= i < words.len() ==> decode_spec(#[trigger] words[i]).0 == group_value(
                record_bits(record),
                i,
            ),
    ensures
        record_payload(words) == record_bits(record),
{
    let bits = record_bits(record);
    assert(record_bytes(record).len() == 61);
    assert(bits.len() == RECORD_BITS);
    let all = payload_bits(words);
    assert forall|k: int| 0 <= k < RECORD_BITS implies #[trigger] all[k] == bits[k] by {
        let i = k / 11;
        let j = k % 11;
        assert(0 <= i < MESSAGE_BLOCKS && 0 <= j < 11 && k == 11 * i + j) by (nonlinear_arith)
            requires
                0 <= k < RECORD_BITS,
                i == k / 11,
                j == k % 11,
        ;
        assert(decode_spec(words[i]).0 == group_value(bits, i));
        lemma_group_bits(bits, i);
        assert(data_bit(group_value(bits, i), j) == bits[k]);
    }
    assert(record_payload(words) =~= bits);
}

/// When every codeword of a message framing `record` decodes to the data it was
/// given, with no uncorrectable error, unframing returns `record`, and says that
/// a correction was made exactly when one was.
proof fn lemma_recovers_record(record: RemoteID, words: Seq<u16>)
    requires
        words.len() == MESSAGE_BLOCKS,
        forall|i: int|
            0 <= i < words.len() ==> decode_spec(#[trigger] words[i]).0 == group_value(
                record_bits(record),
                i,
            ) && !is_uncorrectable(words[i]),
    ensures
        forall|r: Result<Reception, FramingError>|
            unframe_outcome(words, r) <==> r == Ok::<Reception, FramingError>(
                Reception {
                    record,
                    corrected: exists|i: int| 0 <= i < words.len() && is_corrected(#[trigger] words[i]),
                },
            ),
{
    lemma_payload_is_record(record, words);
    lemma_well_formed(record);
    assert(!exists|i: int| 0 <= i < words.len() && is_uncorrectable(#[trigger] words[i]));
    let corrected = exists|i: int| 0 <= i < words.len() && is_corrected(#[trigger] words[i]);
    let expected = Ok::<Reception, FramingError>(Reception { record, corrected });
    assert forall|r: Result<Reception, FramingError>| unframe_outcome(words, r) implies r
        == expected by {
        lemma_record_bits_injective(r->Ok_0.record, record);
    }
    assert(unframe_outcome(words, expected));
}

/// A record's layout is well formed.
proof fn lemma_well_formed(record: RemoteID)
    ensures
        is_well_formed(bits_to_bytes(record_bits(record))),
{
    lemma_bits_to_bytes_inverse(record_bytes(record));
    lemma_layout_well_formed(record);
}

/// Two records with the same bits are the same record.
proof fn lemma_record_bits_injective(a: RemoteID, b: RemoteID)
    requires
        record_bits(a) == record_bits(b),
    ensures
        a == b,
{
    lemma_bits_to_bytes_inverse(record_bytes(a));
    lemma_bits_to_bytes_inverse(record_bytes(b));
    lemma_record_bytes_injective(a, b);
}

/// Unframing a message that frames `record` returns `record`, with no
/// correction made: it returns nothing else.
pub proof fn lemma_round_trip(record: RemoteID, words: Seq<u16>)
    requires
        words.len() == MESSAGE_BLOCKS,
        is_framing_of(words, record_bits(record)),
    ensures
        forall|r: Result<Reception, FramingError>|
            unframe_outcome(words, r) <==> r == Ok::<Reception, FramingError>(
                Reception { record, corrected: false },
            ),
{
    assert forall|i: int| 0 <= i < words.len() implies #[trigger] decode_spec(words[i]).0
        == group_value(record_bits(record), i) && !is_uncorrectable(words[i]) && !is_corrected(
        words[i],
    ) by {
        lemma_decode_valid(words[i]);
    }
    lemma_recovers_record(record, words);
}

/// Unframing a message that frames `record` with any one bit of any one
/// codeword flipped still returns `record`, and says that a correction was made.
pub proof fn lemma_single_bit_recovery(record: RemoteID, words: Seq<u16>, i: int, p: u16)
    requires
        words.len() == MESSAGE_BLOCKS,
        is_framing_of(words, record_bits(record)),
        0 <= i < MESSAGE_BLOCKS,
        p < 16,
    ensures
        forall|r: Result<Reception, FramingError>|
            unframe_outcome(words.update(i, words[i] ^ (1u16 << p)), r) <==> r == Ok::<
                Reception,
                FramingError,
            >(Reception { record, corrected: true }),
{
    let hit = words.update(i, words[i] ^ (1u16 << p));
    let bits = record_bits(record);
    assert forall|k: int| 0 <= k < hit.len() implies #[trigger] decode_spec(hit[k]).0
        == group_value(bits, k) && !is_uncorrectable(hit[k]) by {
        if k == i {
            lemma_single_bit_correction(words[i], group_value(bits, i), p);
        } else {
            lemma_decode_valid(words[k]);
        }
    }
    lemma_single_bit_correction(words[i], group_value(bits, i), p);
    assert(is_corrected(hit[i]));
    lemma_recovers_record(record, hit);
}

/// `bytes` with bit `b` flipped, counting from the most significant bit of
/// the first byte.
pub open spec fn flip_bit(bytes: Seq<u8>, b: int) -> Seq<u8> {
    bytes.update(b / 8, bytes[b / 8] ^ (0x80u8 >> ((b % 8) as u8)))
}

/// A word is fixed by its two bytes.
proof fn lemma_word_from_bytes(x: u16, y: u16)
    requires
        (x >> 8u16) as u8 == (y >> 8u16) as u8,
        x as u8 == y as u8,
    ensures
        x == y,
{
    assert(x == y) by (bit_vector)
        requires
            (x >> 8u16) as u8 == (y >> 8u16) as u8,
            x as u8 == y as u8,
    ;
}

/// Flipping bit `t` (from the most significant) of a word's high byte flips
/// position `15 - t`; of its low byte, position `7 - t`.
proof fn lemma_flip_in_word(x: u16, y: u16, t: u8)
    requires
        t < 8,
    ensures
        (y >> 8u16) as u8 == ((x >> 8u16) as u8) ^ (0x80u8 >> t) && y as u8 == x as u8 ==> y == x
            ^ (1u16 << ((15 - t) as u16)),
        (y >> 8u16) as u8 == (x >> 8u16) as u8 && y as u8 == (x as u8) ^ (0x80u8 >> t) ==> y == x
            ^ (1u16 << ((7 - t) as u16)),
{
    assert((y >> 8u16) as u8 == ((x >> 8u16) as u8) ^ (0x80u8 >> t) && y as u8 == x as u8 ==> y
        == x ^ (1u16 << ((15 - t) as u16))) by (bit_vector)
        requires
            t < 8,
    ;
    assert((y >> 8u16) as u8 == (x >> 8u16) as u8 && y as u8 == (x as u8) ^ (0x80u8 >> t) ==> y
        == x ^ (1u16 << ((7 - t) as u16))) by (bit_vector)
        requires
            t < 8,
    ;
}

/// Receiving the 90 bytes of a message that frames `record` with any one of
/// their 720 bits flipped, and unframing the codewords they hold, still returns
/// `record`, and says that a correction was made.
pub proof fn lemma_byte_flip_recovery(record: RemoteID, words: Seq<u16>, received: Seq<u16>, b: int)
    requires
        words.len() == MESSAGE_BLOCKS,
        is_framing_of(words, record_bits(record)),
        received.len() == MESSAGE_BLOCKS,
        0 <= b < 16 * MESSAGE_BLOCKS,
        words_to_bytes(received) == flip_bit(words_to_bytes(words), b),
    ensures
        forall|r: Result<Reception, FramingError>|
            unframe_outcome(received, r) <==> r == Ok::<Reception, FramingError>(
                Reception { record, corrected: true },
            ),
{
    let sent = words_to_bytes(words);
    let got = words_to_bytes(received);
    let i = b / 16;
    let t = b % 16;
    assert(0 <= i < MESSAGE_BLOCKS && 0 <= t < 16 && b == 16 * i + t);
    assert(b / 8 == 2 * i + t / 8 && b % 8 == t % 8);
    let p = (15 - t) as u16;
    assert forall|k: int| 0 <= k < MESSAGE_BLOCKS implies #[trigger] received[k] == (if k == i {
        words[i] ^ (1u16 << p)
    } else {
        words[k]
    }) by {
        assert((2 * k) / 2 == k && (2 * k) % 2 == 0);
        assert((2 * k + 1) / 2 == k && (2 * k + 1) % 2 == 1);
        assert(got[2 * k] == (received[k] >> 8u16) as u8 && got[2 * k + 1] == received[k] as u8);
        assert(sent[2 * k] == (words[k] >> 8u16) as u8 && sent[2 * k + 1] == words[k] as u8);
        if k == i {
            lemma_flip_in_word(words[i], received[i], (t % 8) as u8);
            if t < 8 {
                assert(got[2 * k] == sent[2 * k] ^ (0x80u8 >> ((t % 8) as u8)));
            } else {
                assert(got[2 * k + 1] == sent[2 * k + 1] ^ (0x80u8 >> ((t % 8) as u8)));
                assert((7 - t % 8) as u16 == p);
            }
        } else {
            lemma_word_from_bytes(received[k], words[k]);
        }
    }
    assert(received =~= words.update(i, words[i] ^ (1u16 << p)));
    lemma_single_bit_recovery(record, words, i, p);
}

/// Framing is deterministic: messages that frame equal records are equal.
pub proof fn lemma_frame_deterministic(a: RemoteID, b: RemoteID, ma: Seq<u16>, mb: Seq<u16>)
    requires
        a == b,
        ma.len() == MESSAGE_BLOCKS,
        mb.len() == MESSAGE_BLOCKS,
        is_framing_of(ma, record_bits(a)),
        is_framing_of(mb, record_bits(b)),
    ensures
        ma == mb,
{
    assert forall|i: int| 0 <= i < MESSAGE_BLOCKS implies ma[i] == mb[i] by {
        lemma_encoding_unique(ma[i], mb[i]);
    }
    assert(ma =~= mb);
}

/// Appends the eleven data bits of `d`, data bit 0 first.
fn push_data(payload: &mut BitVec<495>, d: u16)
    requires
        old(payload)@.len() + 11 <= PAYLOAD_BITS,
    ensures
        final(payload)@ == old(payload)@ + Seq::new(11, |j: int| data_bit(d, j)),
{
    let mut j: u16 = 0;
    while j < 11
        invariant
            j <= 11,
            old(payload)@.len() + 11 <= PAYLOAD_BITS,
            payload@ == old(payload)@ + Seq::new(j as nat, |jj: int| data_bit(d, jj)),
        decreases 11 - j,
    {
        let bit = Bit::from_bool((d >> j) & 1 == 1);
        // below capacity, so the push succeeds
        let _ = payload.push(bit);
        j = j + 1;
        assert(payload@ =~= old(payload)@ + Seq::new(j as nat, |jj: int| data_bit(d, jj)));
    }
}

/// The message that protects the bits of a laid-out record.
pub fn error_correct(bits: &BitVec<488>) -> (r: Message<45>)
    ensures
        r@.len() == MESSAGE_BLOCKS,
        is_framing_of(r@, bits@),
{
    // brings in the bound of the length by 488 that `from` needs
    let n = bits.len();
    Message::from(bits)
}

/// The message that carries `record`: its layout, padded with seven zero bits
/// and cut into 45 groups of eleven, each group encoded as one codeword.
pub fn frame(record: &RemoteID) -> (r: Message<45>)
    ensures
        r@.len() == MESSAGE_BLOCKS,
        is_framing_of(r@, record_bits(*record)),
{
    error_correct(&record.to_bits())
}

/// The record that `message` carries.
///
/// Decodes every codeword in order. Fails with `UnrecoverableChannel` at the
/// first codeword holding an error that cannot be corrected, else with
/// `InvalidRecord` when the first 488 data bits are no valid layout. On success
/// also says whether any codeword needed a correction.
pub fn unframe(message: &Message<45>) -> (r: Result<Reception, FramingError>)
    ensures
        unframe_outcome(message@, r),
{
    let ghost words = message@;
    let mut payload: BitVec<495> = BitVec::new();
    let mut corrected = false;
    let mut i: usize = 0;
    while i < MESSAGE_BLOCKS
        invariant
            i <= MESSAGE_BLOCKS,
            words == message@,
            words.len() == MESSAGE_BLOCKS,
            payload@ == payload_bits(words).subrange(0, 11 * i),
            forall|j: int| 0 <= j < i ==> !is_uncorrectable(#[trigger] words[j]),
            corrected == exists|j: int| 0 <= j < i && is_corrected(#[trigger] words[j]),
        decreases MESSAGE_BLOCKS - i,
    {
        let (d, status) = message.block(i).decode();
        match status {
            DecodeStatus::UncorrectableMultiBit => {
                return Err(FramingError::UnrecoverableChannel { block_index: i });
            },
            DecodeStatus::CorrectedSingleBit(_) => {
                corrected = true;
            },
            DecodeStatus::Clean => {},
        }
        push_data(&mut payload, d);
        proof {
            let all = payload_bits(words);
            assert forall|j: int| 0 <= j < 11 implies all[11 * i + j] == data_bit(d, j) by {
                assert((11 * i + j) / 11 == i && (11 * i + j) % 11 == j) by (nonlinear_arith)
                    requires
                        0 <= j < 11,
                ;
            }
            assert(payload@ =~= all.subrange(0, 11 * (i + 1)));
        }
        i = i + 1;
    }
    let mut bits: BitVec<488> = BitVec::new();
    let mut k: usize = 0;
    while k < RECORD_BITS
        invariant
            k <= RECORD_BITS,
            payload@.len() == PAYLOAD_BITS,
            bits@ == payload@.subrange(0, k as int),
        decreases RECORD_BITS - k,
    {
        // below capacity, so the push succeeds
        let _ = bits.push(payload.get(k));
        k = k + 1;
        assert(bits@ =~= payload@.subrange(0, k as int));
    }
    assert(bits@ =~= record_payload(words));
    match RemoteID::from_bits(&bits) {
        Ok(record) => Ok(Reception { record, corrected }),
        Err(MalformedRecord) => Err(FramingError::InvalidRecord),
    }
}

} // verus!
