//! Recorder commands.
//!
//! A non-blocking recording front end runs the recorder on a dedicated
//! worker: each public operation becomes a fire-and-forget command
//! message, and the worker applies them in FIFO order through
//! [`apply_command`]. The decision of what each command does to the
//! stream lives here, verified; the queue and the thread that drains it
//! are plumbing outside this crate's verified core.

use vstd::prelude::*;
use crate::codec::ByteVec;
use crate::codec::InputBuffer;
use crate::codec::Speed;
use crate::codec::SpecBookmarkMetadata;
use crate::codec::SpecKeyframeMetadata;
use crate::codec::SpecPacket;
use crate::codec::TimestampMillis;
use crate::codec::UnsignedInteger;
use crate::replay_file::record::pending_flush;
use crate::replay_file::record::ReplayFileRecorder;
use crate::replay_file::record::ReplayFileSink;
use crate::replay_file::record::ReplayFileWriteError;

verus! {

/// One queued recorder operation.
pub enum RecorderCommand {
    /// Advance one frame.
    NextFrame,
    /// Add a bookmark with the given name.
    AddBookmark {
        /// Name of the bookmark.
        bookmark: String,
    },
    /// Add a keyframe carrying an opaque state snapshot.
    NewKeyframe {
        /// Opaque serialized state.
        state: ByteVec,
        /// The core's elapsed-time counter, in milliseconds.
        emulator_millis: TimestampMillis,
    },
    /// Set the current input.
    SetInput {
        /// Encoded input bytes.
        input: InputBuffer,
    },
    /// Set the current speed.
    SetSpeed {
        /// New speed.
        speed: Speed,
    },
    /// Write RAM at an address.
    WriteMemory {
        /// Target address.
        address: UnsignedInteger,
        /// Bytes to write.
        data: ByteVec,
    },
    /// Load a save state.
    LoadSaveState {
        /// Opaque serialized state.
        state: ByteVec,
    },
    /// Hard-reset the console.
    ResetConsole,
    /// Stop consuming commands; the closer performs the final flush.
    Close,
}

/// The packet a command emits when applied to a recorder in this state,
/// or `None` for commands that emit nothing (a duplicate input or speed,
/// a frame advance, or close).
pub open spec fn command_packet<F: ReplayFileSink, T: ReplayFileSink>(
    rec: &ReplayFileRecorder<F, T>,
    c: &RecorderCommand,
) -> Option<SpecPacket> {
    match c {
        RecorderCommand::SetInput { input } => if input@ == rec.spec_input() {
            None
        } else {
            Some(SpecPacket::ChangeInput { data: input@ })
        },
        RecorderCommand::SetSpeed { speed } => if *speed == rec.spec_speed() {
            None
        } else {
            Some(SpecPacket::ChangeSpeed { speed: speed.speed_over_256 })
        },
        RecorderCommand::WriteMemory { address, data } => Some(
            SpecPacket::WriteMemory { address: *address, data: data@ },
        ),
        RecorderCommand::LoadSaveState { state } => Some(
            SpecPacket::LoadSaveState { state: state@ },
        ),
        RecorderCommand::ResetConsole => Some(SpecPacket::ResetConsole),
        RecorderCommand::AddBookmark { bookmark } => Some(
            SpecPacket::Bookmark {
                metadata: SpecBookmarkMetadata {
                    name: bookmark@,
                    elapsed_frames: rec.spec_frames(),
                    elapsed_millis: rec.spec_millis(),
                },
            },
        ),
        RecorderCommand::NewKeyframe { state, emulator_millis } => Some(
            SpecPacket::Keyframe {
                metadata: SpecKeyframeMetadata {
                    input: rec.spec_input(),
                    speed: rec.spec_speed().speed_over_256,
                    elapsed_frames: rec.spec_frames(),
                    elapsed_millis: *emulator_millis,
                },
                state: state@,
            },
        ),
        RecorderCommand::NextFrame => None,
        RecorderCommand::Close => None,
    }
}

/// Applies one queued command to the recorder. This is the whole decision
/// logic of a non-blocking recording front end; a worker thread calls it
/// once per received command, in order.
#[verifier::rlimit(100)]
#[verifier::spinoff_prover]
pub fn apply_command<F: ReplayFileSink, T: ReplayFileSink>(
    recorder: &mut ReplayFileRecorder<F, T>,
    command: RecorderCommand,
) -> (r: Result<(), ReplayFileWriteError>)
    requires
        old(recorder).wf(),
        command is NextFrame ==> old(recorder).spec_frames() < u64::MAX && old(
            recorder,
        ).spec_pending() < u64::MAX,
        command matches RecorderCommand::NewKeyframe { emulator_millis, .. } ==> old(
            recorder,
        ).spec_millis() <= emulator_millis,
    ensures
        final(recorder).wf(),
        command is Close ==> r is Ok && ReplayFileRecorder::<F, T>::unchanged(
            old(recorder),
            final(recorder),
        ),
        command is NextFrame ==> r is Ok && final(recorder).spec_frames() == old(
            recorder,
        ).spec_frames() + 1 && final(recorder).spec_pending() == old(recorder).spec_pending() + 1
            && final(recorder).spec_log() == old(recorder).spec_log(),
        r is Ok && !(command is NextFrame) && !(command is Close) ==> (match command_packet(
            old(recorder),
            &command,
        ) {
            Some(p) => final(recorder).spec_log() == pending_flush(
                old(recorder).spec_log(),
                old(recorder).spec_pending(),
            ).push(p) && final(recorder).spec_pending() == 0,
            None => ReplayFileRecorder::<F, T>::unchanged(old(recorder), final(recorder)),
        }),
{
    match command {
        RecorderCommand::Close => Ok(()),
        RecorderCommand::NextFrame => {
            recorder.next_frame();
            Ok(())
        },
        RecorderCommand::AddBookmark { bookmark } => recorder.add_bookmark(bookmark),
        RecorderCommand::NewKeyframe { state, emulator_millis } => {
            match recorder.insert_keyframe(state, emulator_millis) {
                Ok(_) => Ok(()),
                Err(e) => Err(e),
            }
        },
        RecorderCommand::SetInput { input } => recorder.set_input(input),
        RecorderCommand::SetSpeed { speed } => {
            if speed.speed_over_256 == 0 {
                return Err(
                    ReplayFileWriteError::BadInput {
                        explanation: String::from_str("speed must be nonzero"),
                    },
                );
            }
            recorder.set_speed(speed)
        },
        RecorderCommand::WriteMemory { address, data } => recorder.write_memory(address, data),
        RecorderCommand::LoadSaveState { state } => recorder.load_save_state(state),
        RecorderCommand::ResetConsole => recorder.reset_console(),
    }
}

} // verus!
