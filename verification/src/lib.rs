//! Codec for the TTLV framing protocol spoken by QUEC Bluetooth-LE devices:
//! advertisement parsing, frame encoding and stream decoding, and the
//! authentication handshake built on top of them.

pub mod commands;
pub mod decode;
pub mod device;
pub mod encode;
pub mod hex;
pub mod laws;
pub mod model;
pub mod session;
pub mod wire;
