//! Emulator-facing data types: controller state, run time accounting, and
//! the compatibility check a driver runs before attaching a replay player
//! to a live core.

use vstd::prelude::*;
use vstd::string::StringSliceAdditionalSpecFns;
use crate::codec::clone_string;
use crate::replay_file::header::ReplayConsoleType;
use crate::replay_file::header::ReplayFileMetadata;
use crate::replay_file::header::ReplayHeaderBlake3Hash;

verus! {

/// Amount of time passed when running the emulator core.
#[derive(Copy, Clone, PartialEq, Eq, Structural, Debug)]
pub struct RunTime {
    /// Emulator ticks passed.
    pub ticks: u64,
    /// Frames passed.
    pub frames: u64,
}

/// Describes a current input state.
#[derive(Copy, Clone, PartialEq, Debug)]
pub struct Input {
    /// The A button.
    pub a: bool,
    /// The B button.
    pub b: bool,
    /// The Start button.
    pub start: bool,
    /// The Select button.
    pub select: bool,
    /// Up on the directional pad.
    pub d_up: bool,
    /// Down on the directional pad.
    pub d_down: bool,
    /// Left on the directional pad.
    pub d_left: bool,
    /// Right on the directional pad.
    pub d_right: bool,
    /// The L shoulder button.
    pub l: bool,
    /// The R shoulder button.
    pub r: bool,
    /// The X button.
    pub x: bool,
    /// The Y button.
    pub y: bool,
    /// A touch position, if the screen is touched.
    pub touch: Option<(u16, u16)>,
}

impl Input {
    /// Instantiate an empty input.
    pub fn new() -> (r: Self)
        ensures
            r.is_empty_spec(),
    {
        Input {
            a: false,
            b: false,
            start: false,
            select: false,
            d_up: false,
            d_down: false,
            d_left: false,
            d_right: false,
            l: false,
            r: false,
            x: false,
            y: false,
            touch: None,
        }
    }

    /// No button is held and the screen is not touched.
    pub open spec fn is_empty_spec(&self) -> bool {
        &&& !self.a && !self.b && !self.start && !self.select
        &&& !self.d_up && !self.d_down && !self.d_left && !self.d_right
        &&& !self.l && !self.r && !self.x && !self.y
        &&& self.touch is None
    }

    /// Return true if the input is empty.
    pub fn is_empty(&self) -> (r: bool)
        ensures
            r == self.is_empty_spec(),
    {
        !self.a && !self.b && !self.start && !self.select && !self.d_up && !self.d_down
            && !self.d_left && !self.d_right && !self.l && !self.r && !self.x && !self.y
            && self.touch.is_none()
    }
}

impl Default for Input {
    /// The default input is empty.
    fn default() -> (r: Self)
        ensures
            r.is_empty_spec(),
    {
        Input::new()
    }
}

/// The emulator types a frontend can drive.
#[derive(Copy, Clone, PartialEq, Eq, Structural, Debug)]
pub enum SuperShuckieEmulatorType {
    /// The original Game Boy.
    GameBoy,
    /// The Game Boy Color.
    GameBoyColor,
}

/// A user-originated input event.
#[derive(Copy, Clone, PartialEq, Eq, Structural, Debug)]
pub enum UserInput {
    /// A keyboard key, by key code.
    Keyboard {
        /// Platform key code.
        keycode: i32,
    },
}

/// Identity of the loaded emulator core.
#[derive(Copy, Clone, PartialEq, Eq, Structural, Debug)]
pub struct CoreMetadata {
    /// The emulator type, when one is loaded.
    pub emulator_type: Option<SuperShuckieEmulatorType>,
}

/// Progress counters of a replay being played or recorded.
#[derive(Copy, Clone, PartialEq, Eq, Structural, Debug)]
pub struct SuperShuckieReplayTimes {
    /// Total frames.
    pub total_frames: u32,
    /// Total milliseconds.
    pub total_milliseconds: u32,
}

/// Returned when attaching a replay player to a live core fails.
#[derive(Clone, Debug)]
pub enum ReplayPlayerAttachError {
    /// Metadata is mismatched; playback may desync. Recoverable by
    /// attaching again with the mismatch override.
    MismatchedMetadata {
        /// Every mismatch that was found.
        issues: Vec<ReplayPlayerMetadataMismatchKind>,
    },
    /// The console types differ; the replay cannot drive this core.
    Incompatible {
        /// Diagnostic text.
        description: String,
    },
}

/// Describes a metadata mismatch between a replay and the loaded content.
#[derive(Clone, Debug)]
pub enum ReplayPlayerMetadataMismatchKind {
    /// The ROM checksums differ.
    ROMChecksumMismatch {
        /// Checksum recorded in the replay.
        replay: ReplayHeaderBlake3Hash,
        /// Checksum of the loaded ROM.
        loaded: ReplayHeaderBlake3Hash,
    },
    /// The BIOS checksums differ.
    BIOSChecksumMismatch {
        /// Checksum recorded in the replay.
        replay: ReplayHeaderBlake3Hash,
        /// Checksum of the loaded BIOS.
        loaded: ReplayHeaderBlake3Hash,
    },
    /// The emulator core identity strings differ.
    CoreMismatch {
        /// Core name recorded in the replay.
        replay: String,
        /// Core name currently loaded.
        loaded: String,
    },
}

/// Two 32-byte checksums hold the same bytes.
pub fn hashes_equal(a: &ReplayHeaderBlake3Hash, b: &ReplayHeaderBlake3Hash) -> (r: bool)
    ensures
        r <==> a@ == b@,
{
    let mut i: usize = 0;
    while i < 32
        invariant
            i <= 32,
            forall|j: int| 0 <= j < i ==> a@[j] == b@[j],
        decreases 32 - i,
    {
        if a[i] != b[i] {
            return false;
        }
        i = i + 1;
    }
    proof {
        assert(a@ =~= b@);
    }
    true
}

/// Two strings hold the same characters.
fn strings_equal(a: &str, b: &str) -> (r: bool)
    ensures
        r <==> a@ == b@,
{
    let ab = a.as_bytes();
    let bb = b.as_bytes();
    if ab.len() != bb.len() {
        proof {
            vstd::utf8::encode_utf8_decode_utf8(a@);
            vstd::utf8::encode_utf8_decode_utf8(b@);
        }
        return false;
    }
    let n = ab.len();
    let mut i: usize = 0;
    while i < n
        invariant
            n == ab@.len(),
            n == bb@.len(),
            ab@ == a.spec_bytes(),
            bb@ == b.spec_bytes(),
            i <= n,
            forall|j: int| 0 <= j < i ==> ab@[j] == bb@[j],
        decreases n - i,
    {
        if ab[i] != bb[i] {
            proof {
                vstd::utf8::encode_utf8_decode_utf8(a@);
                vstd::utf8::encode_utf8_decode_utf8(b@);
            }
            return false;
        }
        i = i + 1;
    }
    proof {
        assert(ab@ =~= bb@);
        vstd::utf8::encode_utf8_decode_utf8(a@);
        vstd::utf8::encode_utf8_decode_utf8(b@);
    }
    true
}

/// The compatibility check run before a replay player is attached to a
/// live core: a console-type mismatch is always fatal; checksum and
/// core-identity mismatches are collected and reported as a recoverable
/// warning unless `allow_mismatched` overrides them.
pub fn check_replay_compatibility(
    metadata: &ReplayFileMetadata,
    core_console_type: Option<ReplayConsoleType>,
    rom_checksum: &ReplayHeaderBlake3Hash,
    bios_checksum: &ReplayHeaderBlake3Hash,
    core_name: &str,
    allow_mismatched: bool,
) -> (r: Result<(), ReplayPlayerAttachError>)
    ensures
        (core_console_type != Some(metadata.console_type) ==> r matches Err(
            ReplayPlayerAttachError::Incompatible { .. },
        )),
        (core_console_type == Some(metadata.console_type) && allow_mismatched ==> r is Ok),
        (core_console_type == Some(metadata.console_type) && !allow_mismatched ==> (r is Ok
            <==> metadata@.rom_checksum == rom_checksum@ && metadata@.bios_checksum
            == bios_checksum@ && metadata@.emulator_core_name == core_name@)),
{
    let console_matches = match core_console_type {
        Some(t) => t.as_code() == metadata.console_type.as_code(),
        None => false,
    };
    if !console_matches {
        proof {
            match core_console_type {
                Some(t) => {
                    assert(t.spec_code() != metadata.console_type.spec_code());
                },
                None => {},
            }
        }
        return Err(
            ReplayPlayerAttachError::Incompatible {
                description: String::from_str("console types do not match"),
            },
        );
    }
    if allow_mismatched {
        return Ok(());
    }
    let mut issues: Vec<ReplayPlayerMetadataMismatchKind> = Vec::new();
    if !hashes_equal(&metadata.rom_checksum, rom_checksum) {
        issues.push(
            ReplayPlayerMetadataMismatchKind::ROMChecksumMismatch {
                replay: metadata.rom_checksum,
                loaded: *rom_checksum,
            },
        );
    }
    if !hashes_equal(&metadata.bios_checksum, bios_checksum) {
        issues.push(
            ReplayPlayerMetadataMismatchKind::BIOSChecksumMismatch {
                replay: metadata.bios_checksum,
                loaded: *bios_checksum,
            },
        );
    }
    if !strings_equal(metadata.emulator_core_name.as_str(), core_name) {
        issues.push(
            ReplayPlayerMetadataMismatchKind::CoreMismatch {
                replay: clone_string(&metadata.emulator_core_name),
                loaded: String::from_str(core_name),
            },
        );
    }
    if issues.len() > 0 {
        return Err(ReplayPlayerAttachError::MismatchedMetadata { issues });
    }
    Ok(())
}

} // verus!
