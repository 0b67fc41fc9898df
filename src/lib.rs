//! Synchronisation, integrity checking and bit-field decoding of RTCM3 frames
//! found in an arbitrary byte buffer.

pub mod crc;
pub mod bits;
pub mod frame;
pub mod message;
