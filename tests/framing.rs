use eternal_os::bitvec::BitVec;
use eternal_os::imu::Accel;
use eternal_os::message::{error_correct, frame, unframe, FramingError, Message, Reception};
use eternal_os::remote_id::{MalformedRecord, RemoteID};
use eternal_os::vec::Bit;
use eternal_os::system::{
    Position, SerialNumber, Status, StatusCode, Subsystem, SubsystemStatus, Timestamp, Velocity,
};

fn serial(text: &str) -> SerialNumber {
    let mut bytes = [0u8; 20];
    bytes[..text.len()].copy_from_slice(text.as_bytes());
    SerialNumber::new(bytes)
}

fn scenario_record() -> RemoteID {
    let pos = Position { lat: 38.8977f32.to_bits(), long: (-77.0365f32).to_bits(), alt: 100 };
    RemoteID::new(
        serial("PHX0000000000000001"),
        pos,
        pos,
        Velocity { x: 0f32.to_bits(), y: 0f32.to_bits(), z: 0f32.to_bits() },
        Timestamp { year: 2024, month: 6, day: 15, millis: 43_200_000 },
        StatusCode::Operational,
    )
}

fn other_record() -> RemoteID {
    RemoteID::new(
        serial("ABCDEFGHIJKLMNOPQRST"),
        Position { lat: (-12.5f32).to_bits(), long: 151.25f32.to_bits(), alt: 65535 },
        Position { lat: 0xFFFF_FFFF, long: 0, alt: 1 },
        Velocity { x: 1.5f32.to_bits(), y: (-2.25f32).to_bits(), z: 9.75f32.to_bits() },
        Timestamp { year: 65535, month: 12, day: 31, millis: 86_399_999 },
        StatusCode::Emergency,
    )
}

#[test]
fn record_layout_bytes() {
    let bytes = scenario_record().to_bytes();
    assert_eq!(bytes.len(), 61);
    assert_eq!(&bytes[..19], b"PHX0000000000000001");
    assert_eq!(bytes[19], 0);
    assert_eq!(&bytes[20..24], &38.8977f32.to_bits().to_be_bytes());
    assert_eq!(&bytes[28..30], &[0, 100]);
    assert_eq!(&bytes[52..54], &2024u16.to_be_bytes());
    assert_eq!(bytes[54], 6);
    assert_eq!(bytes[55], 15);
    assert_eq!(&bytes[56..60], &43_200_000u32.to_be_bytes());
    assert_eq!(bytes[60], 0);
    assert_eq!(other_record().to_bytes()[60], 255);
}

#[test]
fn record_bits_round_trip() {
    for rec in [scenario_record(), other_record()] {
        let bits = rec.to_bits();
        assert_eq!(bits.len(), 488);
        assert_eq!(RemoteID::from_bits(&bits), Ok(rec));
    }
}

#[test]
fn bad_status_byte_is_malformed() {
    let mut bytes = scenario_record().to_bytes();
    bytes[60] = 7;
    let bits: BitVec<488> = BitVec::from_bytes(&bytes).unwrap();
    assert_eq!(RemoteID::from_bits(&bits), Err(MalformedRecord));
}

#[test]
fn short_bits_are_malformed() {
    let bits: BitVec<488> = BitVec::from_bytes(&[0u8; 60]).unwrap();
    assert_eq!(RemoteID::from_bits(&bits), Err(MalformedRecord));
}

#[test]
fn frame_then_unframe_round_trip() {
    for rec in [scenario_record(), other_record()] {
        let m = frame(&rec);
        assert_eq!(unframe(&m), Ok(Reception { record: rec, corrected: false }));
    }
}

#[test]
fn framing_is_deterministic() {
    let a = frame(&scenario_record());
    let b = frame(&scenario_record());
    assert_eq!(a, b);
    assert_eq!(a.to_bytes(), b.to_bytes());
}

#[test]
fn frame_matches_error_correct_of_bits() {
    let rec = other_record();
    assert_eq!(frame(&rec), error_correct(&rec.to_bits()));
}

#[test]
fn message_is_ninety_bytes_and_reads_back() {
    let m = frame(&scenario_record());
    let bytes = m.to_bytes().concat();
    assert_eq!(bytes.len(), 90);
    assert_eq!(bytes[0], (m.block(0).word() >> 8) as u8);
    assert_eq!(bytes[1], m.block(0).word() as u8);
    let back: Message<45> = Message::from_bytes(&bytes).unwrap();
    assert_eq!(back, m);
    assert!(Message::<45>::from_bytes(&bytes[..89]).is_none());
}

#[test]
fn scenario_survives_any_single_bit_error() {
    let rec = scenario_record();
    let bytes = frame(&rec).to_bytes().concat();
    for k in 0..(90 * 8) {
        let mut hit = bytes.clone();
        hit[k / 8] ^= 0x80 >> (k % 8);
        let m: Message<45> = Message::from_bytes(&hit).unwrap();
        assert_eq!(unframe(&m), Ok(Reception { record: rec, corrected: true }));
    }
}

#[test]
fn double_error_in_a_block_is_unrecoverable() {
    let mut bytes = frame(&scenario_record()).to_bytes().concat();
    bytes[10] ^= 0x03;
    bytes[30] ^= 0x81;
    let m: Message<45> = Message::from_bytes(&bytes).unwrap();
    assert_eq!(unframe(&m), Err(FramingError::UnrecoverableChannel { block_index: 5 }));
}

#[test]
fn invalid_status_after_decoding_is_invalid_record() {
    let mut bytes = scenario_record().to_bytes();
    bytes[60] = 0x42;
    let bits: BitVec<488> = BitVec::from_bytes(&bytes).unwrap();
    let m = error_correct(&bits);
    assert_eq!(unframe(&m), Err(FramingError::InvalidRecord));
}

#[test]
fn empty_message_is_zero_blocks() {
    let m: Message<45> = Message::new();
    assert!(m.to_bytes().concat().iter().all(|b| *b == 0));
    // All-zero data decodes cleanly but its status byte is valid (Operational),
    // so the all-zero message carries the all-zero record.
    let r = unframe(&m).unwrap();
    assert_eq!(r.record.status, StatusCode::Operational);
    assert_eq!(r.record.serial_number.bytes, [0u8; 20]);
    assert!(!r.corrected);
}

#[test]
fn small_message_from_pads_with_zero() {
    let bits: BitVec<16> = BitVec::from_bytes(&[0xFF, 0xFF]).unwrap();
    let m: Message<2> = Message::from(&bits);
    assert_eq!(m.block(0).decode().0, 0x7FF);
    // Five ones then six padding zeros, the first bit as data bit 0.
    assert_eq!(m.block(1).decode().0, 0b00000_011111);
}

#[test]
fn status_codes() {
    assert_eq!(StatusCode::Operational.to_u8(), 0);
    assert_eq!(StatusCode::Emergency.to_u8(), 255);
    assert_eq!(StatusCode::from_u8(255), Some(StatusCode::Emergency));
    assert_eq!(StatusCode::from_u8(1), None);
    let mut s = Status::new();
    assert_eq!(s.code(), StatusCode::Operational);
    s.set(Subsystem::Radio, SubsystemStatus::Emergency);
    assert_eq!(s.get(Subsystem::Radio), SubsystemStatus::Emergency);
    assert_eq!(s.get(Subsystem::Power), SubsystemStatus::Operational);
    assert_eq!(s.code(), StatusCode::Emergency);
}

#[test]
fn accel_from_registers() {
    let a = Accel::from_registers([0x01, 0x02, 0xFF, 0xFE, 0x80, 0x00]);
    assert_eq!(a, Accel { x: 0x0102, y: -2, z: -32768 });
}

#[test]
fn group_bits_fill_data_positions_in_stream_order() {
    // One bit set: the first bit of the group goes to position 3.
    let mut one: BitVec<11> = BitVec::new();
    one.push(Bit::One).unwrap();
    let m: Message<1> = Message::from(&one);
    assert_eq!(m.block(0).word(), 0b1111);

    // Four ones then seven zeros: positions 3, 5, 6, 7 and their checks.
    let mut four: BitVec<11> = BitVec::new();
    for k in 0..11 {
        four.push(if k < 4 { Bit::One } else { Bit::Zero }).unwrap();
    }
    let m: Message<1> = Message::from(&four);
    assert_eq!(m.block(0).word(), 0x00FF);
}

#[test]
fn scenario_first_and_last_blocks() {
    let m = frame(&scenario_record());
    // 'P' = 0x50 and the top three bits of 'H' = 0x48: data 0,1,0,1,0,0,0,0,0,1,0.
    assert_eq!(m.block(0).word(), 0x41B1);
    // The low nibble of status 0 and seven padding zeros.
    assert_eq!(m.block(44).word(), 0);
}
