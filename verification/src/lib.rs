//! A deterministic replay log engine for console emulators.
//!
//! The engine captures every externally observable input to an emulation core
//! (frame advances, controller state, memory pokes, speed changes, resets,
//! save-state loads) into a compact, seekable binary log, and plays that log
//! back to reproduce the exact session, including random access to any point
//! via embedded keyframe snapshots.

use vstd::prelude::*;

pub mod codec;
pub mod emulator;
pub mod replay_file;
pub mod settings;
pub mod util;

pub use codec::BookmarkMetadata;
pub use codec::ByteVec;
pub use codec::InputBuffer;
pub use codec::KeyframeMetadata;
pub use codec::Packet;
pub use codec::PacketDiscriminator;
pub use codec::PacketReadError;
pub use codec::Speed;
pub use codec::TimestampMillis;
pub use codec::UnsignedInteger;
pub use util::blake3_hash;

verus! {

} // verus!
