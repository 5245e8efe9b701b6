//! Encoder for the binary NUMERIC wire format of a relational database:
//! exact integer logarithms, base-10000 digit-group decomposition, and
//! wire records for unsigned 64-bit, signed 128-bit and fixed-point
//! Q80.48 source values.

pub mod buf;
pub mod digits;
pub mod int_log;
pub mod numeric;
pub mod tables;
pub mod wire;
