//! Identity, time, position and status values that a Remote ID record carries.
use vstd::prelude::*;

verus! {

/// A UAS serial number: twenty bytes of ASCII.
#[derive(Copy, Clone, Debug, PartialEq, Eq)]
pub struct SerialNumber {
    pub bytes: [u8; 20],
}

impl SerialNumber {
    /// The serial number with these twenty bytes.
    pub fn new(bytes: [u8; 20]) -> (r: SerialNumber)
        ensures
            r.bytes == bytes,
    {
        SerialNumber { bytes }
    }
}

/// A broadcast timestamp.
///
/// `year` in the Gregorian calendar, `month` from 1 (January) to 12,
/// `day` from 1 to 31, `millis` since midnight UTC.
#[derive(Copy, Clone, Debug, PartialEq, Eq, Structural)]
pub struct Timestamp {
    pub year: u16,
    pub month: u8,
    pub day: u8,
    pub millis: u32,
}

/// A geodetic position, of the aircraft or of its control station.
///
/// `lat` (positive north) and `long` (positive east) are the bit patterns of
/// IEEE 754 single-precision numbers; `alt` is the altitude above sea level.
#[derive(Copy, Clone, Debug, PartialEq, Eq, Structural)]
pub struct Position {
    pub lat: u32,
    pub long: u32,
    pub alt: u16,
}

/// A velocity: `x` easterly, `y` northerly, `z` upwards, each the bit pattern
/// of an IEEE 754 single-precision number.
#[derive(Copy, Clone, Debug, PartialEq, Eq, Structural)]
pub struct Velocity {
    pub x: u32,
    pub y: u32,
    pub z: u32,
}

/// The status of the aircraft, or of one of its subsystems.
#[derive(Copy, Clone, Debug, PartialEq, Eq, Structural)]
pub enum StatusCode {
    /// Operational.
    Operational,
    /// In emergency.
    Emergency,
}

/// The byte that stands for a status code on the wire.
pub open spec fn status_byte(s: StatusCode) -> u8 {
    match s {
        StatusCode::Operational => 0,
        StatusCode::Emergency => 255,
    }
}

impl StatusCode {
    /// The byte that stands for this code: 0 for `Operational`, 255 for `Emergency`.
    pub fn to_u8(&self) -> (r: u8)
        ensures
            r == status_byte(*self),
    {
        match self {
            StatusCode::Operational => 0,
            StatusCode::Emergency => 255,
        }
    }

    /// The code that `b` stands for, if any.
    pub fn from_u8(b: u8) -> (r: Option<StatusCode>)
        ensures
            r is Some <==> (b == 0 || b == 255),
            r matches Some(s) ==> status_byte(s) == b,
    {
        if b == 0 {
            Some(StatusCode::Operational)
        } else if b == 255 {
            Some(StatusCode::Emergency)
        } else {
            None
        }
    }
}

/// The subsystems of the aircraft.
#[derive(Copy, Clone, Debug, PartialEq, Eq, Structural)]
pub enum Subsystem {
    Propulsion,
    Radio,
    RemoteID,
    Guidance,
    Power,
}

/// The status of one subsystem.
#[derive(Copy, Clone, Debug, PartialEq, Eq, Structural)]
pub enum SubsystemStatus {
    Operational,
    Emergency,
}

/// The statuses of the aircraft's subsystems.
#[derive(Copy, Clone, Debug, PartialEq, Eq, Structural)]
pub struct Status {
    propulsion: SubsystemStatus,
    radio: SubsystemStatus,
    remote_id: SubsystemStatus,
    guidance: SubsystemStatus,
    power: SubsystemStatus,
}

impl Status {
    /// The status of subsystem `s`.
    pub closed spec fn spec_get(self, s: Subsystem) -> SubsystemStatus {
        match s {
            Subsystem::Propulsion => self.propulsion,
            Subsystem::Radio => self.radio,
            Subsystem::RemoteID => self.remote_id,
            Subsystem::Guidance => self.guidance,
            Subsystem::Power => self.power,
        }
    }

    /// Every subsystem operational.
    pub fn new() -> (r: Status)
        ensures
            forall|s: Subsystem| r.spec_get(s) == SubsystemStatus::Operational,
    {
        Status {
            propulsion: SubsystemStatus::Operational,
            radio: SubsystemStatus::Operational,
            remote_id: SubsystemStatus::Operational,
            guidance: SubsystemStatus::Operational,
            power: SubsystemStatus::Operational,
        }
    }

    /// The status of subsystem `s`.
    pub fn get(&self, s: Subsystem) -> (r: SubsystemStatus)
        ensures
            r == self.spec_get(s),
    {
        match s {
            Subsystem::Propulsion => self.propulsion,
            Subsystem::Radio => self.radio,
            Subsystem::RemoteID => self.remote_id,
            Subsystem::Guidance => self.guidance,
            Subsystem::Power => self.power,
        }
    }

    /// Records that subsystem `s` now has status `v`.
    pub fn set(&mut self, s: Subsystem, v: SubsystemStatus)
        ensures
            final(self).spec_get(s) == v,
            forall|t: Subsystem| t != s ==> final(self).spec_get(t) == old(self).spec_get(t),
    {
        match s {
            Subsystem::Propulsion => self.propulsion = v,
            Subsystem::Radio => self.radio = v,
            Subsystem::RemoteID => self.remote_id = v,
            Subsystem::Guidance => self.guidance = v,
            Subsystem::Power => self.power = v,
        }
    }

    /// `Emergency` when one or more subsystems are in emergency, else `Ok`.
    pub fn code(&self) -> (r: StatusCode)
        ensures
            r == StatusCode::Emergency <==> exists|s: Subsystem|
                self.spec_get(s) == SubsystemStatus::Emergency,
    {
        let any = self.propulsion == SubsystemStatus::Emergency || self.radio
            == SubsystemStatus::Emergency || self.remote_id == SubsystemStatus::Emergency
            || self.guidance == SubsystemStatus::Emergency || self.power
            == SubsystemStatus::Emergency;
        proof {
            if any {
                if self.propulsion == SubsystemStatus::Emergency {
                    assert(self.spec_get(Subsystem::Propulsion) == SubsystemStatus::Emergency);
                } else if self.radio == SubsystemStatus::Emergency {
                    assert(self.spec_get(Subsystem::Radio) == SubsystemStatus::Emergency);
                } else if self.remote_id == SubsystemStatus::Emergency {
                    assert(self.spec_get(Subsystem::RemoteID) == SubsystemStatus::Emergency);
                } else if self.guidance == SubsystemStatus::Emergency {
                    assert(self.spec_get(Subsystem::Guidance) == SubsystemStatus::Emergency);
                } else {
                    assert(self.spec_get(Subsystem::Power) == SubsystemStatus::Emergency);
                }
            }
        }
        if any {
            StatusCode::Emergency
        } else {
            StatusCode::Operational
        }
    }
}

} // verus!
