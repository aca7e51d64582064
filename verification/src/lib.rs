//! A compact binary codec and framing protocol for exchanging structured
//! values with a constrained device over a byte stream.
//!
//! A value is a tree of booleans, 8- and 16-bit integers, 32-bit floats,
//! tuples, records and variants of tagged unions ([`value::Value`]). Its
//! encoding is the encoding of its leaves in order: one byte for a boolean
//! or an 8-bit integer, two bytes, low byte first, for a 16-bit integer,
//! four bytes, lowest first, for a float, and one index byte in front of
//! what a variant holds. There are no lengths, names or separators, so a
//! value is read back against a [`shape::Shape`].
//!
//! A frame is `[start | length | payload | end | crc8(payload)]`: the
//! payload is the encoded value, at most 255 bytes long, and the markers
//! are those of the codec ([`UcPack`]).
//!
//! Bytes are written to a [`buffer::WriteBuffer`] and read from a
//! [`buffer::ReadBuffer`]: a growing `Vec<u8>` or a
//! [`buffer::SliceCursor`] over a slice of fixed size, which never
//! allocates. The writers themselves work at a [`buffer::WritePlace`], the
//! end of such a buffer or an index into a slice that the caller lends, so
//! that [`UcPack::serialize_slice`] can say what the caller's slice holds
//! afterwards.
//!
//! What holds of the codec as a whole is stated and proved in [`laws`].

pub mod buffer;
pub mod crc;
pub mod de;
pub mod error;
pub mod frame;
pub mod laws;
pub mod ser;
pub mod shape;
pub mod value;

pub use crc::{crc8, crc8_slice};
pub use error::UcPackError;
pub use frame::{is_complete_message, UcPack};
