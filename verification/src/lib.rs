//! Decoding of the primitive fields of a binary telemetry log: little-endian
//! unsigned integers of fixed width, and UTF-8 text.

pub mod unpack;
