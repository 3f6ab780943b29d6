//! Decoder for the fixed 96-bit header of a name-resolution wire message.
//!
//! The header packs seven sub-byte fields into its second 16-bit word — a
//! 1-bit query/response flag, a 4-bit opcode, four 1-bit control flags, a
//! 3-bit reserved zone that must be zero, and a 4-bit response code — so the
//! decoder walks the buffer with a bit cursor, most significant bit first,
//! rather than byte by byte. Decoding either yields a [`header::Header`]
//! together with the unconsumed remainder of the buffer, or a structured
//! [`header::DecodeError`]; it never panics and never reads out of bounds.

pub mod bits;
pub mod codec;
pub mod header;
