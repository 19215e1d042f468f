//! Accelerations as an MPU6050 reports them.
use vstd::prelude::*;

verus! {

/// The value of the big-endian two's-complement bytes `hi`, `lo`.
pub open spec fn be_i16(hi: u8, lo: u8) -> int {
    if hi < 128 {
        hi * 256 + lo
    } else {
        hi * 256 + lo - 65536
    }
}

/// The X, Y and Z accelerations, in the sensor's raw units.
#[derive(Copy, Clone, Debug, PartialEq, Eq, Structural)]
pub struct Accel {
    pub x: i16,
    pub y: i16,
    pub z: i16,
}

/// The value of the big-endian two's-complement bytes `hi`, `lo`.
fn read_i16(hi: u8, lo: u8) -> (r: i16)
    ensures
        r == be_i16(hi, lo),
{
    let v: u16 = ((hi as u16) << 8u16) | (lo as u16);
    assert(((hi as u16) << 8u16) | (lo as u16) == hi * 256 + lo) by (bit_vector);
    if hi < 128 {
        v as i16
    } else {
        (v as i32 - 65536) as i16
    }
}

impl Accel {
    /// The accelerations in the six bytes that the sensor's acceleration
    /// registers hold from their first: X, Y and Z, each big-endian.
    pub fn from_registers(buffer: [u8; 6]) -> (r: Accel)
        ensures
            r.x == be_i16(buffer[0], buffer[1]),
            r.y == be_i16(buffer[2], buffer[3]),
            r.z == be_i16(buffer[4], buffer[5]),
    {
        Accel {
            x: read_i16(buffer[0], buffer[1]),
            y: read_i16(buffer[2], buffer[3]),
            z: read_i16(buffer[4], buffer[5]),
        }
    }
}

} // verus!
