//! The replay file: header codec, recorder and player.

pub mod command;
pub mod header;
pub mod playback;
pub mod record;

pub use header::blake3_hash_to_ascii;
pub use header::ReplayConsoleType;
pub use header::ReplayFileMetadata;
pub use header::ReplayHeaderBlake3Hash;
pub use header::ReplayPatchFormat;
pub use header::REPLAY_VERSION;
pub use playback::ReplayFilePlayer;
pub use playback::ReplayFileReadError;
pub use playback::ReplaySeekError;
pub use record::NullReplayFileSink;
pub use record::ReplayFileRecorderSettings;
pub use record::ReplayFileSink;
pub use record::ReplayFileWriteError;
