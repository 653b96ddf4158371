//! A byte-backed arbitrary-precision integer with addition, and the byte
//! encoding that fixed-width integer types use to move in and out of it.

pub mod as_bytes;
pub mod bigint;
pub mod le;
