use eternal_os::codec::{BitBlock, DecodeStatus};

#[test]
fn encode_zero_is_zero_word() {
    assert_eq!(BitBlock::encode(0).word(), 0);
    assert_eq!(BitBlock::new().word(), 0);
}

#[test]
fn encode_known_words() {
    // Data bit 0 sits at position 3, covered by checks 1 and 2 and the overall bit.
    assert_eq!(BitBlock::encode(1).word(), 0b0000_0000_0000_1111);
    // All eleven data bits set.
    assert_eq!(BitBlock::encode(0x7FF).word(), 0xFFFF);
}

#[test]
fn encode_then_decode_is_clean() {
    for d in 0u16..2048 {
        let block = BitBlock::encode(d);
        assert_eq!(block.decode(), (d, DecodeStatus::Clean));
    }
}

#[test]
fn single_bit_errors_are_corrected() {
    for d in 0u16..2048 {
        let w = BitBlock::encode(d).word();
        for p in 0u16..16 {
            let hit = BitBlock::from_word(w ^ (1 << p));
            assert_eq!(hit.decode(), (d, DecodeStatus::CorrectedSingleBit(p as u8)));
        }
    }
}

#[test]
fn double_bit_errors_are_detected() {
    let mut pairs = 0;
    for d in 0u16..2048 {
        let w = BitBlock::encode(d).word();
        for p in 0u16..16 {
            for q in (p + 1)..16 {
                let hit = BitBlock::from_word(w ^ (1 << p) ^ (1 << q));
                assert_eq!(hit.decode().1, DecodeStatus::UncorrectableMultiBit);
                if d == 0 {
                    pairs += 1;
                }
            }
        }
    }
    assert_eq!(pairs, 120);
}

#[test]
fn triple_bit_error_can_be_miscorrected() {
    // Positions 1, 2 and 4 flipped look like a single error at position 7.
    let w = BitBlock::encode(0).word() ^ 0b10110;
    let (data, status) = BitBlock::from_word(w).decode();
    assert_eq!(status, DecodeStatus::CorrectedSingleBit(7));
    assert_ne!(data, 0);
}

#[test]
fn block_bytes_are_big_endian() {
    let b = BitBlock::from_word(0xA55A);
    assert_eq!(b.to_bytes(), [0xA5, 0x5A]);
    assert_eq!(BitBlock::from_bytes(0xA5, 0x5A).word(), 0xA55A);
}

#[test]
fn block_read_lists_positions_in_order() {
    let b = BitBlock::encode(1);
    let bits = b.read();
    assert_eq!(bits.len(), 16);
    for p in 0..16 {
        assert_eq!(bits.get(p).is_one(), p < 4);
    }
}
