//! Radio telemetry codec of a small flight controller: a fixed-capacity bit
//! buffer, an extended Hamming(16,11) block code, the Remote ID record layout
//! and the framer that maps a record onto a sequence of protected blocks.
pub mod vec;
pub mod bitvec;
pub mod codec;
pub mod system;
pub mod remote_id;
pub mod message;
pub mod imu;
