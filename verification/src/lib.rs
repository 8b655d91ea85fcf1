//! An error-checked message protocol over an unreliable byte-oriented
//! serial link: sync-byte resynchronization, length-prefixed frame
//! accumulation in a fixed-capacity rolling buffer, timeout-bounded
//! byte reception, and CRC-16 integrity checking on both paths.
//!
//! Waiting on the link (byte arrival, timer expiry, source failure) is
//! modelled as a sequence of [`source::SourceEvent`]s: the surrounding
//! runtime performs the actual reads and timer races and hands the
//! outcomes to this library, whose decisions are verified for every
//! possible event sequence.

pub mod buffer;
pub mod crc16;
pub mod framed;
pub mod laws;
pub mod proto;
pub mod reader;
pub mod source;

use vstd::prelude::*;

verus! {

/// Marker byte that begins every frame on the wire.
pub const SYNC_BYTE: u8 = 0xfc;

/// Size in bytes of the little-endian length field of a frame.
pub const MESSAGE_LENGTH_SIZE: usize = 2;

/// Size in bytes of the little-endian CRC-16 trailer of a frame.
pub const MESSAGE_CRC_SIZE: usize = 2;

} // verus!
