//! The Remote ID telemetry record and its canonical layout.
//!
//! A record is laid out as 61 bytes, 488 bits: the serial number, the control
//! station's position, the aircraft's position, its velocity, the timestamp and
//! the status, each field big-endian, each bit most significant first.
use vstd::prelude::*;
use crate::bitvec::{BitVec, bits_to_bytes, bytes_to_bits, lemma_bytes_to_bits_inverse};
use crate::vec::Bit;
use crate::system::{Position, SerialNumber, StatusCode, Timestamp, Velocity, status_byte};

verus! {

/// The number of bytes of a laid-out record.
pub const RECORD_BYTES: usize = 61;

/// The number of bits of a laid-out record.
pub const RECORD_BITS: usize = 488;

/// The two bytes of `x`, big-endian.
pub open spec fn be16(x: u16) -> Seq<u8> {
    seq![(x >> 8u16) as u8, x as u8]
}

/// The four bytes of `x`, big-endian.
pub open spec fn be32(x: u32) -> Seq<u8> {
    seq![(x >> 24u32) as u8, (x >> 16u32) as u8, (x >> 8u32) as u8, x as u8]
}

/// The ten bytes of a position: latitude, longitude, altitude.
pub open spec fn position_bytes(p: Position) -> Seq<u8> {
    be32(p.lat) + be32(p.long) + be16(p.alt)
}

/// The twelve bytes of a velocity: x, y, z.
pub open spec fn velocity_bytes(v: Velocity) -> Seq<u8> {
    be32(v.x) + be32(v.y) + be32(v.z)
}

/// The eight bytes of a timestamp: year, month, day, milliseconds.
pub open spec fn timestamp_bytes(t: Timestamp) -> Seq<u8> {
    be16(t.year) + seq![t.month, t.day] + be32(t.millis)
}

/// The error of a laid-out record whose status byte stands for no status code.
#[derive(Copy, Clone, Debug, PartialEq, Eq, Structural)]
pub struct MalformedRecord;

/// A Remote ID record: who the aircraft is, where it and its control station
/// are, how it moves, when, and in what state.
#[derive(Copy, Clone, Debug, PartialEq, Eq)]
pub struct RemoteID {
    pub serial_number: SerialNumber,
    pub ctrl_pos: Position,
    pub uas_pos: Position,
    pub uas_velocity: Velocity,
    pub timestamp: Timestamp,
    pub status: StatusCode,
}

/// The 61 bytes of a record's layout.
pub open spec fn record_bytes(r: RemoteID) -> Seq<u8> {
    r.serial_number.bytes@ + position_bytes(r.ctrl_pos) + position_bytes(r.uas_pos)
        + velocity_bytes(r.uas_velocity) + timestamp_bytes(r.timestamp) + seq![
        status_byte(r.status),
    ]
}

/// The 488 bits of a record's layout.
pub open spec fn record_bits(r: RemoteID) -> Seq<Bit> {
    bytes_to_bits(record_bytes(r))
}

/// Whether a 61-byte layout holds a status byte that stands for a status code.
pub open spec fn is_well_formed(bytes: Seq<u8>) -> bool {
    bytes[60] == 0 || bytes[60] == 255
}

/// A record's layout is well formed.
pub proof fn lemma_layout_well_formed(r: RemoteID)
    ensures
        is_well_formed(record_bytes(r)),
{
    assert(record_bytes(r)[60] == status_byte(r.status));
}

/// The value whose big-endian bytes are `b0`, `b1`.
fn read_be16(b0: u8, b1: u8) -> (r: u16)
    ensures
        be16(r) == seq![b0, b1],
{
    let r = ((b0 as u16) << 8u16) | (b1 as u16);
    assert(((((b0 as u16) << 8u16) | (b1 as u16)) >> 8u16) as u8 == b0 && (((b0 as u16) << 8u16)
        | (b1 as u16)) as u8 == b1) by (bit_vector);
    assert(be16(r) =~= seq![b0, b1]);
    r
}

/// The value whose big-endian bytes are `b0` .. `b3`.
fn read_be32(b0: u8, b1: u8, b2: u8, b3: u8) -> (r: u32)
    ensures
        be32(r) == seq![b0, b1, b2, b3],
{
    let r = ((b0 as u32) << 24u32) | ((b1 as u32) << 16u32) | ((b2 as u32) << 8u32) | (b3 as u32);
    assert({
        let x = ((b0 as u32) << 24u32) | ((b1 as u32) << 16u32) | ((b2 as u32) << 8u32) | (
        b3 as u32);
        (x >> 24u32) as u8 == b0 && (x >> 16u32) as u8 == b1 && (x >> 8u32) as u8 == b2 && x as u8
            == b3
    }) by (bit_vector);
    assert(be32(r) =~= seq![b0, b1, b2, b3]);
    r
}

/// Equal big-endian bytes come from equal values.
proof fn lemma_be_injective(a: u32, b: u32, c: u16, d: u16)
    ensures
        be32(a) == be32(b) ==> a == b,
        be16(c) == be16(d) ==> c == d,
{
    if be32(a) == be32(b) {
        assert(be32(a)[0] == be32(b)[0] && be32(a)[1] == be32(b)[1] && be32(a)[2] == be32(b)[2]
            && be32(a)[3] == be32(b)[3]);
        assert(a == b) by (bit_vector)
            requires
                (a >> 24u32) as u8 == (b >> 24u32) as u8,
                (a >> 16u32) as u8 == (b >> 16u32) as u8,
                (a >> 8u32) as u8 == (b >> 8u32) as u8,
                a as u8 == b as u8,
        ;
    }
    if be16(c) == be16(d) {
        assert(be16(c)[0] == be16(d)[0] && be16(c)[1] == be16(d)[1]);
        assert(c == d) by (bit_vector)
            requires
                (c >> 8u16) as u8 == (d >> 8u16) as u8,
                c as u8 == d as u8,
        ;
    }
}

/// Two records with the same layout are the same record.
pub proof fn lemma_record_bytes_injective(a: RemoteID, b: RemoteID)
    requires
        record_bytes(a) == record_bytes(b),
    ensures
        a == b,
{
    let x = record_bytes(a);
    let y = record_bytes(b);
    assert(x.subrange(0, 20) =~= a.serial_number.bytes@);
    assert(y.subrange(0, 20) =~= b.serial_number.bytes@);
    assert(a.serial_number.bytes =~= b.serial_number.bytes);
    assert(x.subrange(20, 24) =~= be32(a.ctrl_pos.lat) && y.subrange(20, 24) =~= be32(
        b.ctrl_pos.lat,
    ));
    assert(x.subrange(24, 28) =~= be32(a.ctrl_pos.long) && y.subrange(24, 28) =~= be32(
        b.ctrl_pos.long,
    ));
    assert(x.subrange(28, 30) =~= be16(a.ctrl_pos.alt) && y.subrange(28, 30) =~= be16(
        b.ctrl_pos.alt,
    ));
    assert(x.subrange(30, 34) =~= be32(a.uas_pos.lat) && y.subrange(30, 34) =~= be32(
        b.uas_pos.lat,
    ));
    assert(x.subrange(34, 38) =~= be32(a.uas_pos.long) && y.subrange(34, 38) =~= be32(
        b.uas_pos.long,
    ));
    assert(x.subrange(38, 40) =~= be16(a.uas_pos.alt) && y.subrange(38, 40) =~= be16(
        b.uas_pos.alt,
    ));
    assert(x.subrange(40, 44) =~= be32(a.uas_velocity.x) && y.subrange(40, 44) =~= be32(
        b.uas_velocity.x,
    ));
    assert(x.subrange(44, 48) =~= be32(a.uas_velocity.y) && y.subrange(44, 48) =~= be32(
        b.uas_velocity.y,
    ));
    assert(x.subrange(48, 52) =~= be32(a.uas_velocity.z) && y.subrange(48, 52) =~= be32(
        b.uas_velocity.z,
    ));
    assert(x.subrange(52, 54) =~= be16(a.timestamp.year) && y.subrange(52, 54) =~= be16(
        b.timestamp.year,
    ));
    assert(x.subrange(56, 60) =~= be32(a.timestamp.millis) && y.subrange(56, 60) =~= be32(
        b.timestamp.millis,
    ));
    assert(x[54] == a.timestamp.month && y[54] == b.timestamp.month);
    assert(x[55] == a.timestamp.day && y[55] == b.timestamp.day);
    assert(x[60] == status_byte(a.status) && y[60] == status_byte(b.status));
    lemma_be_injective(a.ctrl_pos.lat, b.ctrl_pos.lat, a.ctrl_pos.alt, b.ctrl_pos.alt);
    lemma_be_injective(a.ctrl_pos.long, b.ctrl_pos.long, a.uas_pos.alt, b.uas_pos.alt);
    lemma_be_injective(a.uas_pos.lat, b.uas_pos.lat, a.timestamp.year, b.timestamp.year);
    lemma_be_injective(a.uas_pos.long, b.uas_pos.long, 0, 0);
    lemma_be_injective(a.uas_velocity.x, b.uas_velocity.x, 0, 0);
    lemma_be_injective(a.uas_velocity.y, b.uas_velocity.y, 0, 0);
    lemma_be_injective(a.uas_velocity.z, b.uas_velocity.z, 0, 0);
    lemma_be_injective(a.timestamp.millis, b.timestamp.millis, 0, 0);
}

/// The position whose ten bytes start at `at`.
fn read_position(bytes: &[u8; 61], at: usize) -> (r: Position)
    requires
        at + 10 <= RECORD_BYTES,
    ensures
        position_bytes(r) == bytes@.subrange(at as int, at + 10),
{
    let lat = read_be32(bytes[at], bytes[at + 1], bytes[at + 2], bytes[at + 3]);
    let long = read_be32(bytes[at + 4], bytes[at + 5], bytes[at + 6], bytes[at + 7]);
    let alt = read_be16(bytes[at + 8], bytes[at + 9]);
    let r = Position { lat, long, alt };
    assert(position_bytes(r) =~= bytes@.subrange(at as int, at + 10));
    r
}

impl RemoteID {
    /// The record with these fields.
    #[inline(always)]
    pub fn new(
        serial_number: SerialNumber,
        ctrl_pos: Position,
        uas_pos: Position,
        uas_velocity: Velocity,
        timestamp: Timestamp,
        status: StatusCode,
    ) -> (r: RemoteID)
        ensures
            r == (RemoteID { serial_number, ctrl_pos, uas_pos, uas_velocity, timestamp, status }),
    {
        RemoteID { serial_number, ctrl_pos, uas_pos, uas_velocity, timestamp, status }
    }

    /// The 61 bytes of the record's layout.
    pub fn to_bytes(&self) -> (r: [u8; 61])
        ensures
            r@ == record_bytes(*self),
    {
        let s = &self.serial_number.bytes;
        let c = &self.ctrl_pos;
        let u = &self.uas_pos;
        let v = &self.uas_velocity;
        let t = &self.timestamp;
        let r = [
            s[0], s[1], s[2], s[3], s[4], s[5], s[6], s[7], s[8], s[9], s[10], s[11], s[12], s[13], s[14], s[15], s[16], s[17], s[18], s[19],
            (c.lat >> 24u32) as u8, (c.lat >> 16u32) as u8, (c.lat >> 8u32) as u8, c.lat as u8,
            (c.long >> 24u32) as u8, (c.long >> 16u32) as u8, (c.long >> 8u32) as u8, c.long as u8,
            (c.alt >> 8u16) as u8, c.alt as u8,
            (u.lat >> 24u32) as u8, (u.lat >> 16u32) as u8, (u.lat >> 8u32) as u8, u.lat as u8,
            (u.long >> 24u32) as u8, (u.long >> 16u32) as u8, (u.long >> 8u32) as u8, u.long as u8,
            (u.alt >> 8u16) as u8, u.alt as u8,
            (v.x >> 24u32) as u8, (v.x >> 16u32) as u8, (v.x >> 8u32) as u8, v.x as u8,
            (v.y >> 24u32) as u8, (v.y >> 16u32) as u8, (v.y >> 8u32) as u8, v.y as u8,
            (v.z >> 24u32) as u8, (v.z >> 16u32) as u8, (v.z >> 8u32) as u8, v.z as u8,
            (t.year >> 8u16) as u8, t.year as u8, t.month, t.day,
            (t.millis >> 24u32) as u8, (t.millis >> 16u32) as u8, (t.millis >> 8u32) as u8,
            t.millis as u8,
            self.status.to_u8(),
        ];
        assert(r@ =~= record_bytes(*self));
        r
    }

    /// The record laid out as `bytes`, or `MalformedRecord` when the status
    /// byte stands for no status code.
    fn from_layout(bytes: &[u8; 61]) -> (r: Result<RemoteID, MalformedRecord>)
        ensures
            r is Ok <==> is_well_formed(bytes@),
            r matches Ok(rec) ==> record_bytes(rec) == bytes@,
    {
        let status = match StatusCode::from_u8(bytes[60]) {
            Some(s) => s,
            None => {
                return Err(MalformedRecord);
            },
        };
        let mut serial = [0u8;20];
        let mut i: usize = 0;
        while i < 20
            invariant
                i <= 20,
                forall|k: int| 0 <= k < i ==> serial@[k] == bytes@[k],
            decreases 20 - i,
        {
            serial[i] = bytes[i];
            i = i + 1;
        }
        let ctrl_pos = read_position(bytes, 20);
        let uas_pos = read_position(bytes, 30);
        let uas_velocity = Velocity {
            x: read_be32(bytes[40], bytes[41], bytes[42], bytes[43]),
            y: read_be32(bytes[44], bytes[45], bytes[46], bytes[47]),
            z: read_be32(bytes[48], bytes[49], bytes[50], bytes[51]),
        };
        let timestamp = Timestamp {
            year: read_be16(bytes[52], bytes[53]),
            month: bytes[54],
            day: bytes[55],
            millis: read_be32(bytes[56], bytes[57], bytes[58], bytes[59]),
        };
        let rec = RemoteID {
            serial_number: SerialNumber::new(serial),
            ctrl_pos,
            uas_pos,
            uas_velocity,
            timestamp,
            status,
        };
        assert(velocity_bytes(uas_velocity) =~= bytes@.subrange(40, 52));
        assert(timestamp_bytes(timestamp) =~= bytes@.subrange(52, 60));
        assert(serial@ =~= bytes@.subrange(0, 20));
        assert(record_bytes(rec) =~= bytes@);
        Ok(rec)
    }

    /// The 488 bits of the record's layout.
    pub fn to_bits(&self) -> (r: BitVec<488>)
        ensures
            r@ == record_bits(*self),
            r@.len() == RECORD_BITS,
    {
        let bytes = self.to_bytes();
        match BitVec::from_bytes(&bytes) {
            Ok(bits) => bits,
            Err(_) => unreached(),
        }
    }

    /// The record laid out as `bits`, or `MalformedRecord` when they are fewer
    /// than 488 or their status byte stands for no status code.
    pub fn from_bits(bits: &BitVec<488>) -> (r: Result<RemoteID, MalformedRecord>)
        ensures
            r is Ok <==> bits@.len() == RECORD_BITS && is_well_formed(bits_to_bytes(bits@)),
            r matches Ok(rec) ==> record_bits(rec) == bits@,
    {
        if bits.len() != RECORD_BITS {
            return Err(MalformedRecord);
        }
        let mut bytes = [0u8;61];
        let mut j: usize = 0;
        while j < RECORD_BYTES
            invariant
                j <= RECORD_BYTES,
                bits@.len() == RECORD_BITS,
                forall|k: int| 0 <= k < j ==> bytes@[k] == bits_to_bytes(bits@)[k],
            decreases RECORD_BYTES - j,
        {
            bytes[j] = bits.byte(j);
            j = j + 1;
        }
        assert(bytes@ =~= bits_to_bytes(bits@));
        let r = RemoteID::from_layout(&bytes);
        proof {
            if let Ok(rec) = r {
                lemma_bytes_to_bits_inverse(bits@);
            }
        }
        r
    }
}

} // verus!
