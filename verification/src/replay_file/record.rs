//! Replay file recording functionality.
//!
//! A recorder accepts one logical operation at a time, buffers packets into
//! a growable in-memory blob, and flushes compressed blobs to two byte
//! sinks: a durable final sink that receives only complete compressed
//! blobs, and a truncatable staging sink that receives every packet
//! uncompressed, immediately, and is cut back to the last committed blob
//! boundary on every rollover.

use vstd::prelude::*;
use crate::codec::kf_views;
use crate::codec::bm_views;
use crate::codec::spec_enc_packet;
use crate::codec::spec_enc_packet_seq;
use crate::codec::spec_parse_packet_stream;
use crate::codec::BookmarkMetadata;
use crate::codec::ByteVec;
use crate::codec::InputBuffer;
use crate::codec::KeyframeMetadata;
use crate::codec::Packet;
use crate::codec::Speed;
use crate::codec::SpecBookmarkMetadata;
use crate::codec::SpecKeyframeMetadata;
use crate::codec::SpecPacket;
use crate::codec::UnsignedInteger;
use crate::codec::TimestampMillis;
use crate::replay_file::header::spec_header_bytes;
use crate::replay_file::header::ReplayFileMetadata;
use crate::util::zstd_decompress_of;

verus! {

/// Describes an error that occurred when writing.
#[derive(Clone, PartialEq, Debug)]
pub enum ReplayFileWriteError {
    /// Bad input was given. The stream might still be functional.
    BadInput {
        /// Diagnostic text.
        explanation: String,
    },
    /// The stream has closed. The stream is no longer functional.
    StreamClosed,
    /// The stream was broken by a previous error. The stream is no longer
    /// functional.
    Poisoned,
    /// Some other error occurred. The stream is no longer functional.
    Other {
        /// Diagnostic text.
        explanation: String,
    },
}

/// Describes something that can store bytes contiguously, making it
/// suitable for a replay file.
///
/// An implementation chooses what `sink_bytes` means for it; the two method
/// contracts say how each call changes that byte sequence. The engine's
/// durability claims hold of any implementation that honors them.
pub trait ReplayFileSink: Sized {
    /// The bytes this sink holds. The default reading, for sinks outside
    /// the verified world, is that nothing is known of them.
    open spec fn sink_bytes(&self) -> Seq<u8> {
        Seq::empty()
    }

    /// Writes bytes to the end of the sink.
    fn write_bytes(&mut self, bytes: &[u8]) -> (r: Result<(), ReplayFileWriteError>)
        ensures
            r is Ok ==> final(self).sink_bytes() == old(self).sink_bytes() + bytes@,
            r is Err ==> final(self).sink_bytes() == old(self).sink_bytes(),
    ;

    /// Truncates the sink to the given size; a size past the end leaves the
    /// sink unchanged.
    fn truncate(&mut self, size: u64) -> (r: Result<(), ReplayFileWriteError>)
        ensures
            r is Ok ==> final(self).sink_bytes() == (if size as nat <= old(self).sink_bytes().len() {
                old(self).sink_bytes().take(size as int)
            } else {
                old(self).sink_bytes()
            }),
            r is Err ==> final(self).sink_bytes() == old(self).sink_bytes(),
    ;
}

impl ReplayFileSink for Vec<u8> {
    open spec fn sink_bytes(&self) -> Seq<u8> {
        self@
    }

    fn write_bytes(&mut self, bytes: &[u8]) -> (r: Result<(), ReplayFileWriteError>) {
        self.extend_from_slice(bytes);
        Ok(())
    }

    fn truncate(&mut self, size: u64) -> (r: Result<(), ReplayFileWriteError>) {
        let len = self.len();
        if size < len as u64 {
            self.truncate(size as usize);
        } else {
            proof {
                if size as nat <= self@.len() {
                    assert(size as nat == self@.len());
                    assert(self@.take(size as int) =~= self@);
                }
            }
        }
        Ok(())
    }
}

/// A null sink: it accepts and discards everything. Useful if you do not
/// want a staging buffer, for example.
pub struct NullReplayFileSink {
    bytes: Ghost<Seq<u8>>,
}

impl NullReplayFileSink {
    /// A fresh null sink.
    pub fn new() -> (r: NullReplayFileSink)
        ensures
            r.sink_bytes() == Seq::<u8>::empty(),
    {
        NullReplayFileSink { bytes: Ghost(Seq::empty()) }
    }
}

impl ReplayFileSink for NullReplayFileSink {
    closed spec fn sink_bytes(&self) -> Seq<u8> {
        self.bytes@
    }

    fn write_bytes(&mut self, bytes: &[u8]) -> (r: Result<(), ReplayFileWriteError>) {
        self.bytes = Ghost(self.bytes@ + bytes@);
        Ok(())
    }

    fn truncate(&mut self, size: u64) -> (r: Result<(), ReplayFileWriteError>) {
        proof {
            if size as nat <= self.bytes@.len() {
                self.bytes@ = self.bytes@.take(size as int);
            }
        }
        Ok(())
    }
}

/// Default minimum uncompressed bytes per blob.
pub const DEFAULT_MINIMUM_UNCOMPRESSED_BYTES_PER_BLOB: usize = 512 * 1024 * 1024;

/// Default compression level, the compression library's own standard
/// default.
pub const DEFAULT_ZSTD_COMPRESSION_LEVEL: i32 = 3;

/// Settings for [`ReplayFileRecorder`].
#[derive(Clone, Debug)]
pub struct ReplayFileRecorderSettings {
    /// Minimum uncompressed bytes per blob before a rollover happens.
    pub minimum_uncompressed_bytes_per_blob: usize,
    /// zstd compression level.
    pub compression_level: i32,
}

impl Default for ReplayFileRecorderSettings {
    /// The default settings: the default blob threshold and compression
    /// level.
    fn default() -> (r: Self)
        ensures
            r.minimum_uncompressed_bytes_per_blob == DEFAULT_MINIMUM_UNCOMPRESSED_BYTES_PER_BLOB,
            r.compression_level == DEFAULT_ZSTD_COMPRESSION_LEVEL,
    {
        ReplayFileRecorderSettings {
            minimum_uncompressed_bytes_per_blob: DEFAULT_MINIMUM_UNCOMPRESSED_BYTES_PER_BLOB,
            compression_level: DEFAULT_ZSTD_COMPRESSION_LEVEL,
        }
    }
}

/// The keyframe payloads of the keyframe packets in `ps`, in order.
pub open spec fn keyframes_of(ps: Seq<SpecPacket>) -> Seq<SpecKeyframeMetadata>
    decreases ps.len(),
{
    if ps.len() == 0 {
        Seq::empty()
    } else {
        keyframes_of(ps.drop_last()) + (if ps.last() is Keyframe {
            seq![ps.last()->Keyframe_metadata]
        } else {
            Seq::empty()
        })
    }
}

/// The bookmark payloads of the bookmark packets in `ps`, in order.
pub open spec fn bookmarks_of(ps: Seq<SpecPacket>) -> Seq<SpecBookmarkMetadata>
    decreases ps.len(),
{
    if ps.len() == 0 {
        Seq::empty()
    } else {
        bookmarks_of(ps.drop_last()) + (if ps.last() is Bookmark {
            seq![ps.last()->Bookmark_metadata]
        } else {
            Seq::empty()
        })
    }
}

/// Appending a packet appends its keyframe payload, if it is a keyframe.
pub proof fn lemma_keyframes_of_push(ps: Seq<SpecPacket>, p: SpecPacket)
    ensures
        p is Keyframe ==> keyframes_of(ps.push(p)) == keyframes_of(ps).push(
            p->Keyframe_metadata,
        ),
        !(p is Keyframe) ==> keyframes_of(ps.push(p)) == keyframes_of(ps),
{
    assert(ps.push(p).drop_last() =~= ps);
    assert(ps.push(p).last() == p);
    if p is Keyframe {
        assert(keyframes_of(ps.push(p)) =~= keyframes_of(ps).push(p->Keyframe_metadata));
    } else {
        assert(keyframes_of(ps.push(p)) =~= keyframes_of(ps));
    }
}

/// Appending a packet appends its bookmark payload, if it is a bookmark.
pub proof fn lemma_bookmarks_of_push(ps: Seq<SpecPacket>, p: SpecPacket)
    ensures
        p is Bookmark ==> bookmarks_of(ps.push(p)) == bookmarks_of(ps).push(
            p->Bookmark_metadata,
        ),
        !(p is Bookmark) ==> bookmarks_of(ps.push(p)) == bookmarks_of(ps),
{
    assert(ps.push(p).drop_last() =~= ps);
    assert(ps.push(p).last() == p);
    if p is Bookmark {
        assert(bookmarks_of(ps.push(p)) =~= bookmarks_of(ps).push(p->Bookmark_metadata));
    } else {
        assert(bookmarks_of(ps.push(p)) =~= bookmarks_of(ps));
    }
}

/// A compressed blob packet is coherent when its compressed bytes
/// decompress to exactly `uncompressed_size` bytes that parse as a packet
/// stream of plain (non-blob) packets, and its sidecar keyframe and
/// bookmark lists match that stream.
pub open spec fn wf_blob_packet(p: SpecPacket) -> bool {
    &&& p is CompressedBlob
    &&& p.wf()
    &&& zstd_decompress_of(p->CompressedBlob_compressed_data) matches Some(d) && {
        &&& d.len() == p->CompressedBlob_uncompressed_size
        &&& d.len() <= usize::MAX
        &&& spec_parse_packet_stream(d, 0) matches Ok(inner) && {
            &&& (forall|i: int|
                0 <= i < inner.len() ==> (#[trigger] inner[i]).wf() && !(inner[i]
                    is CompressedBlob))
            &&& p->CompressedBlob_keyframes == keyframes_of(inner)
            &&& p->CompressedBlob_bookmarks == bookmarks_of(inner)
        }
    }
}

/// Every keyframe payload in the index of a packet stream comes from a
/// keyframe packet of that stream.
pub proof fn lemma_keyframes_of_member(ps: Seq<SpecPacket>, k: int)
    requires
        0 <= k < keyframes_of(ps).len(),
    ensures
        exists|j: int|
            0 <= j < ps.len() && ((#[trigger] ps[j]) matches SpecPacket::Keyframe { metadata, .. }
                && metadata == keyframes_of(ps)[k]),
    decreases ps.len(),
{
    let prefix = ps.drop_last();
    if k < keyframes_of(prefix).len() {
        lemma_keyframes_of_member(prefix, k);
        let j = choose|j: int|
            0 <= j < prefix.len() && ((#[trigger] prefix[j]) matches SpecPacket::Keyframe {
                metadata,
                ..
            } && metadata == keyframes_of(prefix)[k]);
        assert(ps[j] == prefix[j]);
        assert(keyframes_of(ps)[k] == keyframes_of(prefix)[k]);
    } else {
        let j = ps.len() - 1;
        assert(ps[j] is Keyframe);
        assert(keyframes_of(ps)[k] == ps[j]->Keyframe_metadata);
    }
}

/// A coherent compressed blob's recorded uncompressed size always equals
/// the true decompressed length of its compressed bytes.
pub proof fn lemma_blob_size_exact(p: SpecPacket)
    requires
        wf_blob_packet(p),
    ensures
        zstd_decompress_of(p->CompressedBlob_compressed_data) matches Some(d) && d.len()
            == p->CompressedBlob_uncompressed_size,
{
}

/// The packet stream a coherent compressed blob holds.
pub open spec fn blob_inner(p: SpecPacket) -> Seq<SpecPacket>
    recommends
        wf_blob_packet(p),
{
    spec_parse_packet_stream(zstd_decompress_of(p->CompressedBlob_compressed_data)->0, 0)->Ok_0
}

/// The packet streams of a sequence of coherent compressed blobs,
/// concatenated in order.
pub open spec fn flatten_blobs(blobs: Seq<SpecPacket>) -> Seq<SpecPacket>
    decreases blobs.len(),
{
    if blobs.len() == 0 {
        Seq::empty()
    } else {
        flatten_blobs(blobs.drop_last()) + blob_inner(blobs.last())
    }
}

/// Appending a blob appends its packet stream.
pub proof fn lemma_flatten_blobs_push(blobs: Seq<SpecPacket>, p: SpecPacket)
    ensures
        flatten_blobs(blobs.push(p)) == flatten_blobs(blobs) + blob_inner(p),
{
    assert(blobs.push(p).drop_last() =~= blobs);
    assert(blobs.push(p).last() == p);
}

/// The log after flushing `pending` buffered frame advances: unchanged when
/// none are buffered, otherwise extended by one `RunFrames` packet carrying
/// the whole run.
pub open spec fn pending_flush(log: Seq<SpecPacket>, pending: u64) -> Seq<SpecPacket> {
    if pending > 0 {
        log.push(SpecPacket::RunFrames { frames: pending })
    } else {
        log
    }
}

/// Records a replay file.
///
/// To finish the stream, call [`ReplayFileRecorder::close`]. It is highly
/// recommended to also add a keyframe immediately before closing so that
/// the length of the replay can be estimated accurately.
pub struct ReplayFileRecorder<F: ReplayFileSink, T: ReplayFileSink> {
    settings: ReplayFileRecorderSettings,
    current_blob: Vec<u8>,
    current_blob_keyframes: Vec<KeyframeMetadata>,
    current_blob_bookmarks: Vec<BookmarkMetadata>,
    current_blob_offset: u64,
    frames_since_last_non_frames_packet: u64,
    elapsed_frames: u64,
    elapsed_millis: u64,
    last_keyframe_frames: u64,
    current_speed: Speed,
    current_input: InputBuffer,
    final_sink: Option<F>,
    temporary_sink: Option<T>,
    poisoned: bool,
    blob_packets: Ghost<Seq<SpecPacket>>,
    flushed_blobs: Ghost<Seq<SpecPacket>>,
    header_prefix: Ghost<Seq<u8>>,
}

impl<F: ReplayFileSink, T: ReplayFileSink> ReplayFileRecorder<F, T> {
    /// The recorder has been closed.
    pub closed spec fn spec_closed(&self) -> bool {
        self.final_sink is None
    }

    /// The recorder was broken by an earlier error.
    pub closed spec fn spec_poisoned(&self) -> bool {
        self.poisoned
    }

    /// Frame advances buffered since the last distinct packet.
    pub closed spec fn spec_pending(&self) -> u64 {
        self.frames_since_last_non_frames_packet
    }

    /// Elapsed frames recorded so far.
    pub closed spec fn spec_frames(&self) -> u64 {
        self.elapsed_frames
    }

    /// Elapsed milliseconds recorded at the last keyframe.
    pub closed spec fn spec_millis(&self) -> u64 {
        self.elapsed_millis
    }

    /// The input value currently tracked for deduplication.
    pub closed spec fn spec_input(&self) -> Seq<u8> {
        self.current_input@
    }

    /// The speed currently tracked for deduplication.
    pub closed spec fn spec_speed(&self) -> Speed {
        self.current_speed
    }

    /// The compressed blob packets flushed to the final sink so far.
    pub closed spec fn spec_flushed(&self) -> Seq<SpecPacket> {
        self.flushed_blobs@
    }

    /// The packets buffered in the current, not yet flushed blob.
    pub closed spec fn spec_current(&self) -> Seq<SpecPacket> {
        self.blob_packets@
    }

    /// The header and patch bytes both sinks start with.
    pub closed spec fn spec_prefix(&self) -> Seq<u8> {
        self.header_prefix@
    }

    /// Every logical packet recorded so far, flushed or buffered, not
    /// counting buffered frame advances.
    pub open spec fn spec_log(&self) -> Seq<SpecPacket> {
        flatten_blobs(self.spec_flushed()) + self.spec_current()
    }

    /// The recorder's internal consistency: the buffered blob bytes are the
    /// encodings of the buffered packets, the sidecar lists mirror them,
    /// every flushed blob is coherent, and both sinks hold exactly what the
    /// model says. A poisoned recorder only promises its flushed blobs.
    pub closed spec fn wf(&self) -> bool {
        &&& self.current_speed.wf()
        &&& (self.final_sink is Some <==> self.temporary_sink is Some)
        &&& (forall|i: int|
            0 <= i < self.flushed_blobs@.len() ==> wf_blob_packet(
                #[trigger] self.flushed_blobs@[i],
            ))
        &&& (!self.poisoned ==> self.coherent())
    }

    /// The not-yet-poisoned part of the recorder's consistency.
    closed spec fn coherent(&self) -> bool {
        &&& (forall|i: int|
            0 <= i < self.blob_packets@.len() ==> (#[trigger] self.blob_packets@[i]).wf() && !(
            self.blob_packets@[i] is CompressedBlob))
        &&& self.current_blob@ == spec_enc_packet_seq(self.blob_packets@)
        &&& kf_views(self.current_blob_keyframes@) == keyframes_of(self.blob_packets@)
        &&& bm_views(self.current_blob_bookmarks@) == bookmarks_of(self.blob_packets@)
        &&& self.current_blob_offset as int == self.header_prefix@.len() + spec_enc_packet_seq(
            self.flushed_blobs@,
        ).len()
        &&& (match self.final_sink {
            Some(fs) => fs.sink_bytes() == self.header_prefix@ + spec_enc_packet_seq(
                self.flushed_blobs@,
            ),
            None => true,
        })
        &&& (match self.temporary_sink {
            Some(ts) => ts.sink_bytes() == self.header_prefix@ + spec_enc_packet_seq(
                self.flushed_blobs@,
            ) + self.current_blob@,
            None => true,
        })
    }

    /// Returns `true` if the stream was closed.
    pub fn is_closed(&self) -> (r: bool)
        ensures
            r == self.spec_closed(),
    {
        self.final_sink.is_none()
    }

    /// Returns `true` if an unrecoverable error occurred.
    pub fn is_poisoned(&self) -> (r: bool)
        ensures
            r == self.spec_poisoned(),
    {
        self.poisoned
    }

    /// Advance a new frame. The frame is buffered and written as part of a
    /// run-length `RunFrames` packet when the next distinct packet arrives.
    pub fn next_frame(&mut self)
        requires
            old(self).wf(),
            old(self).spec_frames() < u64::MAX,
            old(self).spec_pending() < u64::MAX,
        ensures
            final(self).wf(),
            final(self).spec_frames() == old(self).spec_frames() + 1,
            final(self).spec_pending() == old(self).spec_pending() + 1,
            final(self).spec_log() == old(self).spec_log(),
            final(self).spec_closed() == old(self).spec_closed(),
            final(self).spec_poisoned() == old(self).spec_poisoned(),
            final(self).spec_input() == old(self).spec_input(),
            final(self).spec_speed() == old(self).spec_speed(),
            final(self).spec_millis() == old(self).spec_millis(),
            final(self).spec_prefix() == old(self).spec_prefix(),
            final(self).spec_flushed() == old(self).spec_flushed(),
    {
        self.elapsed_frames = self.elapsed_frames + 1;
        self.frames_since_last_non_frames_packet = self.frames_since_last_non_frames_packet + 1;
    }

    /// Appends one packet to the current blob, mirroring its bytes to the
    /// staging sink. Buffered frame advances are not flushed here.
    fn append_packet(&mut self, p: &Packet) -> (r: Result<(), ReplayFileWriteError>)
        requires
            old(self).wf(),
            !old(self).spec_closed(),
            !old(self).spec_poisoned(),
            p@.wf(),
            !(p@ is CompressedBlob),
        ensures
            final(self).wf(),
            final(self).spec_closed() == old(self).spec_closed(),
            r is Ok ==> {
                &&& final(self).spec_current() == old(self).spec_current().push(p@)
                &&& final(self).spec_flushed() == old(self).spec_flushed()
                &&& !final(self).spec_closed()
                &&& !final(self).spec_poisoned()
                &&& final(self).spec_pending() == old(self).spec_pending()
                &&& final(self).spec_frames() == old(self).spec_frames()
                &&& final(self).spec_millis() == old(self).spec_millis()
                &&& final(self).spec_input() == old(self).spec_input()
                &&& final(self).spec_speed() == old(self).spec_speed()
                &&& final(self).spec_prefix() == old(self).spec_prefix()
            },
            r is Err ==> final(self).spec_poisoned(),
    {
        let mut enc: Vec<u8> = Vec::new();
        p.write_to(&mut enc);
        self.current_blob.extend_from_slice(enc.as_slice());
        match p {
            Packet::Keyframe { metadata, .. } => {
                self.current_blob_keyframes.push(metadata.duplicate());
            },
            Packet::Bookmark { metadata } => {
                self.current_blob_bookmarks.push(metadata.duplicate());
            },
            _ => {},
        }
        proof {
            crate::codec::lemma_enc_packet_seq_push(self.blob_packets@, p@);
            lemma_keyframes_of_push(self.blob_packets@, p@);
            lemma_bookmarks_of_push(self.blob_packets@, p@);
            self.blob_packets@ = self.blob_packets@.push(p@);
            assert(kf_views(self.current_blob_keyframes@) =~= keyframes_of(self.blob_packets@));
            assert(bm_views(self.current_blob_bookmarks@) =~= bookmarks_of(self.blob_packets@));
        }
        proof {
            assert(self.current_blob@ =~= spec_enc_packet_seq(self.blob_packets@));
        }
        let write_result = match &mut self.temporary_sink {
            Some(ts) => ts.write_bytes(enc.as_slice()),
            None => Err(ReplayFileWriteError::StreamClosed),
        };
        if write_result.is_err() {
            self.poisoned = true;
            return Err(ReplayFileWriteError::Other {
                explanation: String::from_str("failed to write to the staging sink"),
            });
        }
        proof {
            match &self.temporary_sink {
                Some(ts) => {
                    assert(ts.sink_bytes() =~= self.header_prefix@ + spec_enc_packet_seq(
                        self.flushed_blobs@,
                    ) + self.current_blob@);
                },
                None => {},
            }
        }
        Ok(())
    }

    /// Flushes any buffered frame advances as a single `RunFrames` packet.
    fn write_run_frame_packet(&mut self) -> (r: Result<(), ReplayFileWriteError>)
        requires
            old(self).wf(),
            !old(self).spec_closed(),
            !old(self).spec_poisoned(),
        ensures
            final(self).wf(),
            final(self).spec_closed() == old(self).spec_closed(),
            r is Ok ==> {
                &&& final(self).spec_current() == pending_flush(
                    old(self).spec_current(),
                    old(self).spec_pending(),
                )
                &&& final(self).spec_flushed() == old(self).spec_flushed()
                &&& !final(self).spec_closed()
                &&& !final(self).spec_poisoned()
                &&& final(self).spec_pending() == 0
                &&& final(self).spec_frames() == old(self).spec_frames()
                &&& final(self).spec_millis() == old(self).spec_millis()
                &&& final(self).spec_input() == old(self).spec_input()
                &&& final(self).spec_speed() == old(self).spec_speed()
                &&& final(self).spec_prefix() == old(self).spec_prefix()
            },
            r is Err ==> final(self).spec_poisoned(),
    {
        let pending = self.frames_since_last_non_frames_packet;
        if pending == 0 {
            return Ok(());
        }
        self.frames_since_last_non_frames_packet = 0;
        let p = Packet::RunFrames { frames: pending };
        self.append_packet(&p)
    }

    /// Nothing observable about the recorder differs between `a` and `b`.
    pub open spec fn unchanged(a: &Self, b: &Self) -> bool {
        &&& a.spec_closed() == b.spec_closed()
        &&& a.spec_poisoned() == b.spec_poisoned()
        &&& a.spec_pending() == b.spec_pending()
        &&& a.spec_frames() == b.spec_frames()
        &&& a.spec_millis() == b.spec_millis()
        &&& a.spec_input() == b.spec_input()
        &&& a.spec_speed() == b.spec_speed()
        &&& a.spec_flushed() == b.spec_flushed()
        &&& a.spec_current() == b.spec_current()
        &&& a.spec_prefix() == b.spec_prefix()
    }

    /// Flushes buffered frame advances, then appends one packet. Fails with
    /// `StreamClosed` on a closed recorder and `Poisoned` on a poisoned
    /// one; any sink failure poisons the recorder.
    fn write_packet_data(&mut self, p: &Packet) -> (r: Result<(), ReplayFileWriteError>)
        requires
            old(self).wf(),
            p@.wf(),
            !(p@ is CompressedBlob),
        ensures
            final(self).wf(),
            final(self).spec_closed() == old(self).spec_closed(),
            old(self).spec_closed() ==> r == Err::<(), ReplayFileWriteError>(
                ReplayFileWriteError::StreamClosed,
            ) && Self::unchanged(old(self), final(self)),
            !old(self).spec_closed() && old(self).spec_poisoned() ==> r == Err::<
                (),
                ReplayFileWriteError,
            >(ReplayFileWriteError::Poisoned) && Self::unchanged(old(self), final(self)),
            r is Ok ==> {
                &&& !old(self).spec_closed() && !old(self).spec_poisoned()
                &&& final(self).spec_current() == pending_flush(
                    old(self).spec_current(),
                    old(self).spec_pending(),
                ).push(p@)
                &&& final(self).spec_log() == pending_flush(
                    old(self).spec_log(),
                    old(self).spec_pending(),
                ).push(p@)
                &&& final(self).spec_flushed() == old(self).spec_flushed()
                &&& !final(self).spec_closed()
                &&& !final(self).spec_poisoned()
                &&& final(self).spec_pending() == 0
                &&& final(self).spec_frames() == old(self).spec_frames()
                &&& final(self).spec_millis() == old(self).spec_millis()
                &&& final(self).spec_input() == old(self).spec_input()
                &&& final(self).spec_speed() == old(self).spec_speed()
                &&& final(self).spec_prefix() == old(self).spec_prefix()
            },
            r is Err && !old(self).spec_closed() && !old(self).spec_poisoned() ==> final(self).spec_poisoned(),
    {
        if self.final_sink.is_none() {
            return Err(ReplayFileWriteError::StreamClosed);
        }
        if self.poisoned {
            return Err(ReplayFileWriteError::Poisoned);
        }
        let r1 = self.write_run_frame_packet();
        if let Err(e) = r1 {
            return Err(e);
        }
        let r2 = self.append_packet(p);
        if let Err(e) = r2 {
            return Err(e);
        }
        proof {
            assert(final(self).spec_log() =~= pending_flush(
                old(self).spec_log(),
                old(self).spec_pending(),
            ).push(p@));
        }
        Ok(())
    }

    /// Set the current input. Setting it to the value already tracked is a
    /// no-op that emits no packet.
    #[verifier::rlimit(50)]
    pub fn set_input(&mut self, input_buffer: InputBuffer) -> (r: Result<
        (),
        ReplayFileWriteError,
    >)
        requires
            old(self).wf(),
        ensures
            final(self).wf(),
            final(self).spec_closed() == old(self).spec_closed(),
            input_buffer@ == old(self).spec_input() ==> r is Ok && Self::unchanged(
                old(self),
                final(self),
            ),
            input_buffer@ != old(self).spec_input() && old(self).spec_closed() ==> r == Err::<
                (),
                ReplayFileWriteError,
            >(ReplayFileWriteError::StreamClosed) && Self::unchanged(old(self), final(self)),
            input_buffer@ != old(self).spec_input() && !old(self).spec_closed() && old(self).spec_poisoned() ==> r == Err::<(), ReplayFileWriteError>(
                ReplayFileWriteError::Poisoned,
            ) && Self::unchanged(old(self), final(self)),
            r is Ok && input_buffer@ != old(self).spec_input() ==> {
                &&& final(self).spec_log() == pending_flush(
                    old(self).spec_log(),
                    old(self).spec_pending(),
                ).push(SpecPacket::ChangeInput { data: input_buffer@ })
                &&& final(self).spec_input() == input_buffer@
                &&& final(self).spec_pending() == 0
                &&& final(self).spec_frames() == old(self).spec_frames()
                &&& final(self).spec_speed() == old(self).spec_speed()
                &&& final(self).spec_millis() == old(self).spec_millis()
                &&& final(self).spec_flushed() == old(self).spec_flushed()
                &&& !final(self).spec_closed()
                &&& !final(self).spec_poisoned()
            },
            r is Err && !old(self).spec_closed() && !old(self).spec_poisoned() ==> final(self).spec_poisoned(),
    {
        if bytes_eq(self.current_input.as_slice(), input_buffer.as_slice()) {
            proof {
                assert(input_buffer@ == self.current_input@);
            }
            return Ok(());
        }
        proof {
            vstd::std_specs::vec::axiom_spec_len(&input_buffer);
        }
        let p = Packet::ChangeInput { data: input_buffer };
        let r = self.write_packet_data(&p);
        if let Err(e) = r {
            return Err(e);
        }
        if let Packet::ChangeInput { data } = p {
            self.current_input = data;
        }
        Ok(())
    }

    /// Set the current speed. Setting it to the value already tracked is a
    /// no-op that emits no packet.
    #[verifier::rlimit(50)]
    pub fn set_speed(&mut self, speed: Speed) -> (r: Result<(), ReplayFileWriteError>)
        requires
            old(self).wf(),
            speed.wf(),
        ensures
            final(self).wf(),
            final(self).spec_closed() == old(self).spec_closed(),
            speed == old(self).spec_speed() ==> r is Ok && Self::unchanged(old(self), final(self)),
            speed != old(self).spec_speed() && old(self).spec_closed() ==> r == Err::<
                (),
                ReplayFileWriteError,
            >(ReplayFileWriteError::StreamClosed) && Self::unchanged(old(self), final(self)),
            speed != old(self).spec_speed() && !old(self).spec_closed() && old(self).spec_poisoned() ==> r == Err::<(), ReplayFileWriteError>(
                ReplayFileWriteError::Poisoned,
            ) && Self::unchanged(old(self), final(self)),
            r is Ok && speed != old(self).spec_speed() ==> {
                &&& final(self).spec_log() == pending_flush(
                    old(self).spec_log(),
                    old(self).spec_pending(),
                ).push(SpecPacket::ChangeSpeed { speed: speed.speed_over_256 })
                &&& final(self).spec_speed() == speed
                &&& final(self).spec_pending() == 0
                &&& final(self).spec_frames() == old(self).spec_frames()
                &&& final(self).spec_input() == old(self).spec_input()
                &&& final(self).spec_millis() == old(self).spec_millis()
                &&& final(self).spec_flushed() == old(self).spec_flushed()
                &&& !final(self).spec_closed()
                &&& !final(self).spec_poisoned()
            },
            r is Err && !old(self).spec_closed() && !old(self).spec_poisoned() ==> final(self).spec_poisoned(),
    {
        if self.current_speed == speed {
            return Ok(());
        }
        let p = Packet::ChangeSpeed { speed };
        let r = self.write_packet_data(&p);
        if let Err(e) = r {
            return Err(e);
        }
        self.current_speed = speed;
        Ok(())
    }

    /// Hard-reset the console.
    #[verifier::rlimit(50)]
    pub fn reset_console(&mut self) -> (r: Result<(), ReplayFileWriteError>)
        requires
            old(self).wf(),
        ensures
            final(self).wf(),
            final(self).spec_closed() == old(self).spec_closed(),
            old(self).spec_closed() ==> r == Err::<(), ReplayFileWriteError>(
                ReplayFileWriteError::StreamClosed,
            ) && Self::unchanged(old(self), final(self)),
            !old(self).spec_closed() && old(self).spec_poisoned() ==> r == Err::<
                (),
                ReplayFileWriteError,
            >(ReplayFileWriteError::Poisoned) && Self::unchanged(old(self), final(self)),
            r is Ok ==> {
                &&& final(self).spec_log() == pending_flush(
                    old(self).spec_log(),
                    old(self).spec_pending(),
                ).push(SpecPacket::ResetConsole)
                &&& final(self).spec_pending() == 0
                &&& final(self).spec_frames() == old(self).spec_frames()
                &&& final(self).spec_input() == old(self).spec_input()
                &&& final(self).spec_speed() == old(self).spec_speed()
                &&& final(self).spec_millis() == old(self).spec_millis()
                &&& final(self).spec_flushed() == old(self).spec_flushed()
                &&& !final(self).spec_closed()
                &&& !final(self).spec_poisoned()
            },
            r is Err && !old(self).spec_closed() && !old(self).spec_poisoned() ==> final(self).spec_poisoned(),
    {
        let p = Packet::ResetConsole;
        self.write_packet_data(&p)
    }

    /// Write RAM to an address.
    #[verifier::rlimit(50)]
    pub fn write_memory(&mut self, address: UnsignedInteger, data: ByteVec) -> (r: Result<
        (),
        ReplayFileWriteError,
    >)
        requires
            old(self).wf(),
        ensures
            final(self).wf(),
            final(self).spec_closed() == old(self).spec_closed(),
            old(self).spec_closed() ==> r == Err::<(), ReplayFileWriteError>(
                ReplayFileWriteError::StreamClosed,
            ) && Self::unchanged(old(self), final(self)),
            !old(self).spec_closed() && old(self).spec_poisoned() ==> r == Err::<
                (),
                ReplayFileWriteError,
            >(ReplayFileWriteError::Poisoned) && Self::unchanged(old(self), final(self)),
            r is Ok ==> {
                &&& final(self).spec_log() == pending_flush(
                    old(self).spec_log(),
                    old(self).spec_pending(),
                ).push(SpecPacket::WriteMemory { address, data: data@ })
                &&& final(self).spec_pending() == 0
                &&& final(self).spec_frames() == old(self).spec_frames()
                &&& final(self).spec_input() == old(self).spec_input()
                &&& final(self).spec_speed() == old(self).spec_speed()
                &&& final(self).spec_millis() == old(self).spec_millis()
                &&& final(self).spec_flushed() == old(self).spec_flushed()
                &&& !final(self).spec_closed()
                &&& !final(self).spec_poisoned()
            },
            r is Err && !old(self).spec_closed() && !old(self).spec_poisoned() ==> final(self).spec_poisoned(),
    {
        proof {
            vstd::std_specs::vec::axiom_spec_len(&data);
        }
        let p = Packet::WriteMemory { address, data };
        self.write_packet_data(&p)
    }

    /// Load a save state.
    #[verifier::rlimit(50)]
    pub fn load_save_state(&mut self, state: ByteVec) -> (r: Result<(), ReplayFileWriteError>)
        requires
            old(self).wf(),
        ensures
            final(self).wf(),
            final(self).spec_closed() == old(self).spec_closed(),
            old(self).spec_closed() ==> r == Err::<(), ReplayFileWriteError>(
                ReplayFileWriteError::StreamClosed,
            ) && Self::unchanged(old(self), final(self)),
            !old(self).spec_closed() && old(self).spec_poisoned() ==> r == Err::<
                (),
                ReplayFileWriteError,
            >(ReplayFileWriteError::Poisoned) && Self::unchanged(old(self), final(self)),
            r is Ok ==> {
                &&& final(self).spec_log() == pending_flush(
                    old(self).spec_log(),
                    old(self).spec_pending(),
                ).push(SpecPacket::LoadSaveState { state: state@ })
                &&& final(self).spec_pending() == 0
                &&& final(self).spec_frames() == old(self).spec_frames()
                &&& final(self).spec_input() == old(self).spec_input()
                &&& final(self).spec_speed() == old(self).spec_speed()
                &&& final(self).spec_millis() == old(self).spec_millis()
                &&& final(self).spec_flushed() == old(self).spec_flushed()
                &&& !final(self).spec_closed()
                &&& !final(self).spec_poisoned()
            },
            r is Err && !old(self).spec_closed() && !old(self).spec_poisoned() ==> final(self).spec_poisoned(),
    {
        proof {
            vstd::std_specs::vec::axiom_spec_len(&state);
        }
        let p = Packet::LoadSaveState { state };
        self.write_packet_data(&p)
    }

    /// Add a bookmark at the current position.
    #[verifier::rlimit(100)]
    #[verifier::spinoff_prover]
    pub fn add_bookmark(&mut self, name: String) -> (r: Result<(), ReplayFileWriteError>)
        requires
            old(self).wf(),
        ensures
            final(self).wf(),
            final(self).spec_closed() == old(self).spec_closed(),
            old(self).spec_closed() ==> r == Err::<(), ReplayFileWriteError>(
                ReplayFileWriteError::StreamClosed,
            ) && Self::unchanged(old(self), final(self)),
            !old(self).spec_closed() && old(self).spec_poisoned() ==> r == Err::<
                (),
                ReplayFileWriteError,
            >(ReplayFileWriteError::Poisoned) && Self::unchanged(old(self), final(self)),
            r is Ok ==> {
                &&& final(self).spec_log() == pending_flush(
                    old(self).spec_log(),
                    old(self).spec_pending(),
                ).push(
                    SpecPacket::Bookmark {
                        metadata: SpecBookmarkMetadata {
                            name: name@,
                            elapsed_frames: old(self).spec_frames(),
                            elapsed_millis: old(self).spec_millis(),
                        },
                    },
                )
                &&& final(self).spec_pending() == 0
                &&& final(self).spec_frames() == old(self).spec_frames()
                &&& final(self).spec_input() == old(self).spec_input()
                &&& final(self).spec_speed() == old(self).spec_speed()
                &&& final(self).spec_millis() == old(self).spec_millis()
                &&& final(self).spec_flushed() == old(self).spec_flushed()
                &&& !final(self).spec_closed()
                &&& !final(self).spec_poisoned()
            },
            r is Err && !old(self).spec_closed() && !old(self).spec_poisoned() ==> final(self).spec_poisoned(),
    {
        let name_bytes_len = name.as_str().as_bytes().len();
        proof {
            assert(vstd::utf8::encode_utf8(name@).len() == name_bytes_len);
        }
        let metadata = BookmarkMetadata {
            name,
            elapsed_frames: self.elapsed_frames,
            elapsed_millis: self.elapsed_millis,
        };
        let p = Packet::Bookmark { metadata };
        self.write_packet_data(&p)
    }
}

/// In a stream of valid packets every keyframe payload is valid.
pub proof fn lemma_keyframes_of_wf(ps: Seq<SpecPacket>)
    requires
        forall|i: int| 0 <= i < ps.len() ==> (#[trigger] ps[i]).wf(),
    ensures
        forall|i: int| 0 <= i < keyframes_of(ps).len() ==> (#[trigger] keyframes_of(ps)[i]).wf(),
    decreases ps.len(),
{
    if ps.len() > 0 {
        let prefix = ps.drop_last();
        assert(forall|i: int| 0 <= i < prefix.len() ==> prefix[i] == ps[i]);
        lemma_keyframes_of_wf(prefix);
        assert(ps.last().wf());
        assert forall|i: int|
            0 <= i < keyframes_of(ps).len() implies (#[trigger] keyframes_of(ps)[i]).wf() by {
            if i < keyframes_of(prefix).len() {
                assert(keyframes_of(ps)[i] == keyframes_of(prefix)[i]);
            } else {
                assert(ps.last() is Keyframe);
                assert(keyframes_of(ps)[i] == ps.last()->Keyframe_metadata);
            }
        }
    }
}

/// In a stream of valid packets every bookmark payload is valid.
pub proof fn lemma_bookmarks_of_wf(ps: Seq<SpecPacket>)
    requires
        forall|i: int| 0 <= i < ps.len() ==> (#[trigger] ps[i]).wf(),
    ensures
        forall|i: int| 0 <= i < bookmarks_of(ps).len() ==> (#[trigger] bookmarks_of(ps)[i]).wf(),
    decreases ps.len(),
{
    if ps.len() > 0 {
        let prefix = ps.drop_last();
        assert(forall|i: int| 0 <= i < prefix.len() ==> prefix[i] == ps[i]);
        lemma_bookmarks_of_wf(prefix);
        assert(ps.last().wf());
        assert forall|i: int|
            0 <= i < bookmarks_of(ps).len() implies (#[trigger] bookmarks_of(ps)[i]).wf() by {
            if i < bookmarks_of(prefix).len() {
                assert(bookmarks_of(ps)[i] == bookmarks_of(prefix)[i]);
            } else {
                assert(ps.last() is Bookmark);
                assert(bookmarks_of(ps)[i] == ps.last()->Bookmark_metadata);
            }
        }
    }
}

/// A compressed blob packet built from a coherent snapshot is itself
/// coherent.
proof fn lemma_blob_packet_coherent(blob: SpecPacket, inner: Seq<SpecPacket>, data: Seq<u8>)
    requires
        blob is CompressedBlob,
        blob->CompressedBlob_keyframes == keyframes_of(inner),
        blob->CompressedBlob_bookmarks == bookmarks_of(inner),
        zstd_decompress_of(blob->CompressedBlob_compressed_data) == Some(data),
        blob->CompressedBlob_uncompressed_size == data.len(),
        data.len() <= usize::MAX,
        blob->CompressedBlob_keyframes.len() <= usize::MAX,
        blob->CompressedBlob_bookmarks.len() <= usize::MAX,
        blob->CompressedBlob_compressed_data.len() <= usize::MAX,
        forall|i: int|
            0 <= i < inner.len() ==> (#[trigger] inner[i]).wf() && !(inner[i] is CompressedBlob),
        data == spec_enc_packet_seq(inner),
    ensures
        wf_blob_packet(blob),
        blob.wf(),
        blob_inner(blob) == inner,
{
    lemma_keyframes_of_wf(inner);
    lemma_bookmarks_of_wf(inner);
    assert(data.subrange(0, data.len() as int) =~= spec_enc_packet_seq(inner));
    crate::codec::lemma_parse_spec_enc_packet_seq(inner, data, 0);
    assert forall|i: int|
        0 <= i < blob->CompressedBlob_keyframes.len() implies (
    #[trigger] blob->CompressedBlob_keyframes[i]).wf() by {
        assert(keyframes_of(inner)[i].wf());
    }
    assert forall|i: int|
        0 <= i < blob->CompressedBlob_bookmarks.len() implies (
    #[trigger] blob->CompressedBlob_bookmarks[i]).wf() by {
        assert(bookmarks_of(inner)[i].wf());
    }
}

impl<F: ReplayFileSink, T: ReplayFileSink> ReplayFileRecorder<F, T> {
    /// Writes an encoded compressed blob packet to the final sink, then
    /// truncates the staging sink back to the committed boundary and writes
    /// the same bytes there.
    #[verifier::rlimit(100)]
    #[verifier::spinoff_prover]
    fn commit_blob_bytes(&mut self, enc: &Vec<u8>) -> (r: Result<(), ReplayFileWriteError>)
        requires
            old(self).final_sink is Some,
            old(self).temporary_sink is Some,
            !old(self).poisoned,
            old(self).current_blob_offset as int == old(self).header_prefix@.len()
                + spec_enc_packet_seq(old(self).flushed_blobs@).len(),
            (match old(self).final_sink {
                Some(fs) => fs.sink_bytes() == old(self).header_prefix@ + spec_enc_packet_seq(
                    old(self).flushed_blobs@,
                ),
                None => false,
            }),
            (match old(self).temporary_sink {
                Some(ts) => ts.sink_bytes() == old(self).header_prefix@ + spec_enc_packet_seq(
                    old(self).flushed_blobs@,
                ) + old(self).current_blob@,
                None => false,
            }),
        ensures
            final(self).settings == old(self).settings,
            final(self).current_blob == old(self).current_blob,
            final(self).current_blob_keyframes == old(self).current_blob_keyframes,
            final(self).current_blob_bookmarks == old(self).current_blob_bookmarks,
            final(self).frames_since_last_non_frames_packet == old(
                self,
            ).frames_since_last_non_frames_packet,
            final(self).elapsed_frames == old(self).elapsed_frames,
            final(self).elapsed_millis == old(self).elapsed_millis,
            final(self).last_keyframe_frames == old(self).last_keyframe_frames,
            final(self).current_speed == old(self).current_speed,
            final(self).current_input == old(self).current_input,
            final(self).blob_packets == old(self).blob_packets,
            final(self).flushed_blobs == old(self).flushed_blobs,
            final(self).header_prefix == old(self).header_prefix,
            final(self).final_sink is Some,
            final(self).temporary_sink is Some,
            r is Ok ==> {
                &&& !final(self).poisoned
                &&& final(self).current_blob_offset as int == old(self).current_blob_offset as int
                    + enc@.len()
                &&& (match final(self).final_sink {
                    Some(fs) => fs.sink_bytes() == old(self).header_prefix@ + spec_enc_packet_seq(
                        old(self).flushed_blobs@,
                    ) + enc@,
                    None => false,
                })
                &&& (match final(self).temporary_sink {
                    Some(ts) => ts.sink_bytes() == old(self).header_prefix@ + spec_enc_packet_seq(
                        old(self).flushed_blobs@,
                    ) + enc@,
                    None => false,
                })
            },
            r is Err ==> final(self).poisoned,
    {
        let enc_len = enc.len();
        let w1 = match &mut self.final_sink {
            Some(fs) => fs.write_bytes(enc.as_slice()),
            None => Err(ReplayFileWriteError::StreamClosed),
        };
        if w1.is_err() {
            self.poisoned = true;
            return Err(
                ReplayFileWriteError::Other {
                    explanation: String::from_str("failed to write to the final sink"),
                },
            );
        }
        let w2 = match &mut self.temporary_sink {
            Some(ts) => ts.truncate(self.current_blob_offset),
            None => Err(ReplayFileWriteError::StreamClosed),
        };
        if w2.is_err() {
            self.poisoned = true;
            return Err(
                ReplayFileWriteError::Other {
                    explanation: String::from_str("failed to truncate the staging sink"),
                },
            );
        }
        proof {
            match &self.temporary_sink {
                Some(ts) => {
                    assert((self.header_prefix@ + spec_enc_packet_seq(self.flushed_blobs@)
                        + self.current_blob@).take(self.current_blob_offset as int)
                        =~= self.header_prefix@ + spec_enc_packet_seq(self.flushed_blobs@));
                },
                None => {},
            }
        }
        let w3 = match &mut self.temporary_sink {
            Some(ts) => ts.write_bytes(enc.as_slice()),
            None => Err(ReplayFileWriteError::StreamClosed),
        };
        if w3.is_err() {
            self.poisoned = true;
            return Err(
                ReplayFileWriteError::Other {
                    explanation: String::from_str("failed to write to the staging sink"),
                },
            );
        }
        let new_offset = match self.current_blob_offset.checked_add(enc_len as u64) {
            Some(o) => o,
            None => {
                self.poisoned = true;
                return Err(
                    ReplayFileWriteError::Other {
                        explanation: String::from_str("replay file offset overflowed"),
                    },
                );
            },
        };
        self.current_blob_offset = new_offset;
        Ok(())
    }

    /// Finalizes the current blob: flushes buffered frame advances,
    /// compresses the blob, writes the compressed blob packet to the final
    /// sink, and truncates the staging sink back to the committed boundary
    /// before writing the same packet there.
    #[verifier::rlimit(100)]
    #[verifier::spinoff_prover]
    fn next_blob(&mut self) -> (r: Result<(), ReplayFileWriteError>)
        requires
            old(self).wf(),
            !old(self).spec_closed(),
            !old(self).spec_poisoned(),
        ensures
            final(self).wf(),
            final(self).spec_closed() == old(self).spec_closed(),
            r is Ok ==> {
                &&& final(self).spec_current() == Seq::<SpecPacket>::empty()
                &&& final(self).spec_pending() == 0
                &&& final(self).spec_flushed().len() == old(self).spec_flushed().len() + 1
                &&& final(self).spec_flushed().drop_last() == old(self).spec_flushed()
                &&& wf_blob_packet(final(self).spec_flushed().last())
                &&& blob_inner(final(self).spec_flushed().last()) == pending_flush(
                    old(self).spec_current(),
                    old(self).spec_pending(),
                )
                &&& final(self).spec_log() == pending_flush(
                    old(self).spec_log(),
                    old(self).spec_pending(),
                )
                &&& !final(self).spec_closed()
                &&& !final(self).spec_poisoned()
                &&& final(self).spec_frames() == old(self).spec_frames()
                &&& final(self).spec_millis() == old(self).spec_millis()
                &&& final(self).spec_input() == old(self).spec_input()
                &&& final(self).spec_speed() == old(self).spec_speed()
                &&& final(self).spec_prefix() == old(self).spec_prefix()
            },
            r is Err ==> final(self).spec_poisoned(),
    {
        let r1 = self.write_run_frame_packet();
        if let Err(e) = r1 {
            return Err(e);
        }
        let r2 = self.flush_current_blob();
        if let Err(e) = r2 {
            return Err(e);
        }
        proof {
            assert(final(self).spec_log() =~= pending_flush(
                old(self).spec_log(),
                old(self).spec_pending(),
            ));
        }
        Ok(())
    }

    /// Compresses the current blob and commits it to both sinks. Buffered
    /// frame advances must already have been flushed.
    #[verifier::rlimit(100)]
    #[verifier::spinoff_prover]
    fn flush_current_blob(&mut self) -> (r: Result<(), ReplayFileWriteError>)
        requires
            old(self).wf(),
            !old(self).spec_closed(),
            !old(self).spec_poisoned(),
            old(self).spec_pending() == 0,
        ensures
            final(self).wf(),
            final(self).spec_closed() == old(self).spec_closed(),
            r is Ok ==> {
                &&& final(self).spec_current() == Seq::<SpecPacket>::empty()
                &&& final(self).spec_pending() == 0
                &&& final(self).spec_flushed().len() == old(self).spec_flushed().len() + 1
                &&& final(self).spec_flushed().drop_last() == old(self).spec_flushed()
                &&& wf_blob_packet(final(self).spec_flushed().last())
                &&& blob_inner(final(self).spec_flushed().last()) == old(self).spec_current()
                &&& final(self).spec_log() == old(self).spec_log()
                &&& !final(self).spec_closed()
                &&& !final(self).spec_poisoned()
                &&& final(self).spec_frames() == old(self).spec_frames()
                &&& final(self).spec_millis() == old(self).spec_millis()
                &&& final(self).spec_input() == old(self).spec_input()
                &&& final(self).spec_speed() == old(self).spec_speed()
                &&& final(self).spec_prefix() == old(self).spec_prefix()
            },
            r is Err ==> final(self).spec_poisoned(),
    {
        let uncompressed_size = self.current_blob.len();
        let compressed = match crate::util::compress_data(
            self.current_blob.as_slice(),
            self.settings.compression_level,
        ) {
            Ok(c) => c,
            Err(_) => {
                self.poisoned = true;
                return Err(
                    ReplayFileWriteError::Other {
                        explanation: String::from_str("failed to compress the blob"),
                    },
                );
            },
        };
        proof {
            vstd::std_specs::vec::axiom_spec_len(&compressed);
            vstd::std_specs::vec::axiom_spec_len(&self.current_blob);
            vstd::std_specs::vec::axiom_spec_len(&self.current_blob_keyframes);
            vstd::std_specs::vec::axiom_spec_len(&self.current_blob_bookmarks);
            lemma_keyframes_of_wf(self.blob_packets@);
            lemma_bookmarks_of_wf(self.blob_packets@);
        }
        let ghost old_kfs_seq = self.current_blob_keyframes@;
        let ghost old_bms_seq = self.current_blob_bookmarks@;
        let kfs = self.current_blob_keyframes.split_off(0);
        let bms = self.current_blob_bookmarks.split_off(0);
        let blob_packet = Packet::CompressedBlob {
            keyframes: kfs,
            bookmarks: bms,
            compressed_data: compressed,
            uncompressed_size: uncompressed_size as u64,
        };
        proof {
            assert(blob_packet@ matches SpecPacket::CompressedBlob { keyframes: k, bookmarks: b, .. }
                && k == kf_views(old_kfs_seq) && b == bm_views(old_bms_seq)) by {
                assert(old_kfs_seq.subrange(0, old_kfs_seq.len() as int) =~= old_kfs_seq);
                assert(old_bms_seq.subrange(0, old_bms_seq.len() as int) =~= old_bms_seq);
            }
            lemma_blob_packet_coherent(blob_packet@, self.blob_packets@, self.current_blob@);
        }
        let mut enc: Vec<u8> = Vec::new();
        blob_packet.write_to(&mut enc);
        let cb = self.commit_blob_bytes(&enc);
        if let Err(e) = cb {
            return Err(e);
        }
        self.current_blob.clear();
        proof {
            let ghost old_flushed = self.flushed_blobs@;
            crate::codec::lemma_enc_packet_seq_push(old_flushed, blob_packet@);
            lemma_flatten_blobs_push(old_flushed, blob_packet@);
            self.flushed_blobs@ = self.flushed_blobs@.push(blob_packet@);
            self.blob_packets@ = Seq::empty();
            assert(self.flushed_blobs@.drop_last() =~= old_flushed);
            assert(spec_enc_packet_seq(Seq::<SpecPacket>::empty()) =~= Seq::<u8>::empty());
            match &self.final_sink {
                Some(fs) => {
                    assert(fs.sink_bytes() =~= self.header_prefix@ + spec_enc_packet_seq(
                        self.flushed_blobs@,
                    ));
                },
                None => {},
            }
            match &self.temporary_sink {
                Some(ts) => {
                    assert(ts.sink_bytes() =~= self.header_prefix@ + spec_enc_packet_seq(
                        self.flushed_blobs@,
                    ) + self.current_blob@);
                },
                None => {},
            }
            assert(kf_views(self.current_blob_keyframes@) =~= keyframes_of(self.blob_packets@));
            assert(bm_views(self.current_blob_bookmarks@) =~= bookmarks_of(self.blob_packets@));
            assert(final(self).spec_log() =~= pending_flush(
                old(self).spec_log(),
                old(self).spec_pending(),
            ));
        }
        Ok(())
    }

    /// Add a new keyframe carrying the given opaque state snapshot and the
    /// core's elapsed-time counter, which must never decrease. May first
    /// roll the current blob over if it reached the size threshold.
    ///
    /// Returns the frame index the keyframe is on.
    #[verifier::rlimit(100)]
    #[verifier::spinoff_prover]
    pub fn insert_keyframe(&mut self, state: ByteVec, elapsed_millis: TimestampMillis) -> (r:
        Result<u64, ReplayFileWriteError>)
        requires
            old(self).wf(),
            old(self).spec_millis() <= elapsed_millis,
        ensures
            final(self).wf(),
            final(self).spec_closed() == old(self).spec_closed(),
            old(self).spec_closed() ==> r == Err::<u64, ReplayFileWriteError>(
                ReplayFileWriteError::StreamClosed,
            ) && Self::unchanged(old(self), final(self)),
            !old(self).spec_closed() && old(self).spec_poisoned() ==> r == Err::<
                u64,
                ReplayFileWriteError,
            >(ReplayFileWriteError::Poisoned) && Self::unchanged(old(self), final(self)),
            r is Ok ==> {
                &&& r == Ok::<u64, ReplayFileWriteError>(old(self).spec_frames())
                &&& final(self).spec_log() == pending_flush(
                    old(self).spec_log(),
                    old(self).spec_pending(),
                ).push(
                    SpecPacket::Keyframe {
                        metadata: SpecKeyframeMetadata {
                            input: old(self).spec_input(),
                            speed: old(self).spec_speed().speed_over_256,
                            elapsed_frames: old(self).spec_frames(),
                            elapsed_millis: elapsed_millis,
                        },
                        state: state@,
                    },
                )
                &&& final(self).spec_pending() == 0
                &&& final(self).spec_frames() == old(self).spec_frames()
                &&& final(self).spec_millis() == elapsed_millis
                &&& final(self).spec_input() == old(self).spec_input()
                &&& final(self).spec_speed() == old(self).spec_speed()
                &&& final(self).spec_prefix() == old(self).spec_prefix()
                &&& !final(self).spec_closed()
                &&& !final(self).spec_poisoned()
            },
            r is Err && !old(self).spec_closed() && !old(self).spec_poisoned() ==> final(self).spec_poisoned(),
    {
        if self.final_sink.is_none() {
            return Err(ReplayFileWriteError::StreamClosed);
        }
        if self.poisoned {
            return Err(ReplayFileWriteError::Poisoned);
        }
        self.elapsed_millis = elapsed_millis;
        self.last_keyframe_frames = self.elapsed_frames;
        if self.current_blob.len() >= self.settings.minimum_uncompressed_bytes_per_blob {
            let rb = self.next_blob();
            if let Err(e) = rb {
                return Err(e);
            }
        }
        let rw = self.write_keyframe_packet(state);
        if let Err(e) = rw {
            return Err(e);
        }
        proof {
            assert(final(self).spec_log() =~= pending_flush(
                old(self).spec_log(),
                old(self).spec_pending(),
            ).push(
                SpecPacket::Keyframe {
                    metadata: SpecKeyframeMetadata {
                        input: old(self).spec_input(),
                        speed: old(self).spec_speed().speed_over_256,
                        elapsed_frames: old(self).spec_frames(),
                        elapsed_millis: elapsed_millis,
                    },
                    state: state@,
                },
            ));
        }
        Ok(self.elapsed_frames)
    }

    /// Writes a keyframe packet carrying the current input, speed, frame
    /// and time counters, flushing buffered frame advances first.
    #[verifier::rlimit(100)]
    #[verifier::spinoff_prover]
    fn write_keyframe_packet(&mut self, state: ByteVec) -> (r: Result<(), ReplayFileWriteError>)
        requires
            old(self).wf(),
            !old(self).spec_closed(),
            !old(self).spec_poisoned(),
        ensures
            final(self).wf(),
            final(self).spec_closed() == old(self).spec_closed(),
            r is Ok ==> {
                &&& final(self).spec_log() == pending_flush(
                    old(self).spec_log(),
                    old(self).spec_pending(),
                ).push(
                    SpecPacket::Keyframe {
                        metadata: SpecKeyframeMetadata {
                            input: old(self).spec_input(),
                            speed: old(self).spec_speed().speed_over_256,
                            elapsed_frames: old(self).spec_frames(),
                            elapsed_millis: old(self).spec_millis(),
                        },
                        state: state@,
                    },
                )
                &&& final(self).spec_flushed() == old(self).spec_flushed()
                &&& final(self).spec_pending() == 0
                &&& final(self).spec_frames() == old(self).spec_frames()
                &&& final(self).spec_millis() == old(self).spec_millis()
                &&& final(self).spec_input() == old(self).spec_input()
                &&& final(self).spec_speed() == old(self).spec_speed()
                &&& final(self).spec_prefix() == old(self).spec_prefix()
                &&& !final(self).spec_closed()
                &&& !final(self).spec_poisoned()
            },
            r is Err ==> final(self).spec_poisoned(),
    {
        proof {
            vstd::std_specs::vec::axiom_spec_len(&self.current_input);
            vstd::std_specs::vec::axiom_spec_len(&state);
        }
        let metadata = KeyframeMetadata {
            input: crate::codec::clone_bytes(&self.current_input),
            speed: self.current_speed,
            elapsed_frames: self.elapsed_frames,
            elapsed_millis: self.elapsed_millis,
        };
        let p = Packet::Keyframe { metadata, state };
        let rw = self.write_packet_data(&p);
        if let Err(e) = rw {
            return Err(e);
        }
        Ok(())
    }

    /// Start a new replay file: write the header and the patch bytes to
    /// both sinks, then record the mandatory initial keyframe.
    #[verifier::rlimit(100)]
    #[verifier::spinoff_prover]
    pub fn new_with_metadata(
        replay_file_metadata: ReplayFileMetadata,
        patch_data: ByteVec,
        settings: ReplayFileRecorderSettings,
        starting_millis: TimestampMillis,
        starting_input: InputBuffer,
        starting_speed: Speed,
        initial_keyframe_state: ByteVec,
        final_sink: F,
        temporary_sink: T,
    ) -> (r: Result<ReplayFileRecorder<F, T>, ReplayFileWriteError>)
        requires
            starting_speed.wf(),
            final_sink.sink_bytes() == Seq::<u8>::empty(),
            temporary_sink.sink_bytes() == Seq::<u8>::empty(),
        ensures
            !(vstd::utf8::encode_utf8(replay_file_metadata@.emulator_core_name).len() <= 255
                && vstd::utf8::encode_utf8(replay_file_metadata@.rom_name).len() <= 255
                && vstd::utf8::encode_utf8(replay_file_metadata@.rom_filename).len() <= 255)
                ==> r is Err,
            r matches Ok(rec) ==> {
                &&& rec.wf()
                &&& !rec.spec_closed()
                &&& !rec.spec_poisoned()
                &&& rec.spec_prefix() == spec_header_bytes(
                    replay_file_metadata@,
                    patch_data@.len() as u64,
                ) + patch_data@
                &&& rec.spec_log() == seq![
                    SpecPacket::Keyframe {
                        metadata: SpecKeyframeMetadata {
                            input: starting_input@,
                            speed: starting_speed.speed_over_256,
                            elapsed_frames: 0,
                            elapsed_millis: starting_millis,
                        },
                        state: initial_keyframe_state@,
                    },
                ]
                &&& rec.spec_pending() == 0
                &&& rec.spec_frames() == 0
                &&& rec.spec_millis() == starting_millis
                &&& rec.spec_input() == starting_input@
                &&& rec.spec_speed() == starting_speed
            },
    {
        let mut settings = settings;
        if settings.minimum_uncompressed_bytes_per_blob == 0 {
            settings.minimum_uncompressed_bytes_per_blob =
                DEFAULT_MINIMUM_UNCOMPRESSED_BYTES_PER_BLOB;
        }
        proof {
            vstd::std_specs::vec::axiom_spec_len(&patch_data);
        }
        let header = match replay_file_metadata.as_raw_header(patch_data.len() as u64) {
            Ok(h) => h,
            Err(e) => {
                return Err(ReplayFileWriteError::Other { explanation: e });
            },
        };
        let mut final_sink = final_sink;
        let mut temporary_sink = temporary_sink;
        if final_sink.write_bytes(header.as_slice()).is_err() {
            return Err(
                ReplayFileWriteError::Other {
                    explanation: String::from_str("failed to write the header"),
                },
            );
        }
        if final_sink.write_bytes(patch_data.as_slice()).is_err() {
            return Err(
                ReplayFileWriteError::Other {
                    explanation: String::from_str("failed to write the patch data"),
                },
            );
        }
        if temporary_sink.write_bytes(header.as_slice()).is_err() {
            return Err(
                ReplayFileWriteError::Other {
                    explanation: String::from_str("failed to write the header"),
                },
            );
        }
        if temporary_sink.write_bytes(patch_data.as_slice()).is_err() {
            return Err(
                ReplayFileWriteError::Other {
                    explanation: String::from_str("failed to write the patch data"),
                },
            );
        }
        let header_len = header.len();
        let patch_len = patch_data.len();
        let offset64 = match (header_len as u64).checked_add(patch_len as u64) {
            Some(o) => o,
            None => {
                return Err(
                    ReplayFileWriteError::Other {
                        explanation: String::from_str("replay file offset overflowed"),
                    },
                );
            },
        };
        let mut recorder = ReplayFileRecorder {
            settings,
            current_blob: Vec::new(),
            current_blob_keyframes: Vec::new(),
            current_blob_bookmarks: Vec::new(),
            current_blob_offset: offset64,
            frames_since_last_non_frames_packet: 0,
            elapsed_frames: 0,
            elapsed_millis: starting_millis,
            last_keyframe_frames: 0,
            current_speed: starting_speed,
            current_input: starting_input,
            final_sink: Some(final_sink),
            temporary_sink: Some(temporary_sink),
            poisoned: false,
            blob_packets: Ghost(Seq::empty()),
            flushed_blobs: Ghost(Seq::empty()),
            header_prefix: Ghost(header@ + patch_data@),
        };
        proof {
            assert(spec_enc_packet_seq(Seq::<SpecPacket>::empty()) =~= Seq::<u8>::empty());
            assert(recorder.wf()) by {
                assert(recorder.current_blob@ =~= spec_enc_packet_seq(recorder.blob_packets@));
                assert(kf_views(recorder.current_blob_keyframes@) =~= keyframes_of(
                    recorder.blob_packets@,
                ));
                assert(bm_views(recorder.current_blob_bookmarks@) =~= bookmarks_of(
                    recorder.blob_packets@,
                ));
                match &recorder.final_sink {
                    Some(fs) => {
                        assert(fs.sink_bytes() =~= recorder.header_prefix@ + spec_enc_packet_seq(
                            recorder.flushed_blobs@,
                        ));
                    },
                    None => {},
                }
                match &recorder.temporary_sink {
                    Some(ts) => {
                        assert(ts.sink_bytes() =~= recorder.header_prefix@ + spec_enc_packet_seq(
                            recorder.flushed_blobs@,
                        ) + recorder.current_blob@);
                    },
                    None => {},
                }
            }
        }
        let rk = recorder.insert_keyframe(initial_keyframe_state, starting_millis);
        if let Err(e) = rk {
            return Err(e);
        }
        proof {
            assert(recorder.spec_log() =~= seq![
                SpecPacket::Keyframe {
                    metadata: SpecKeyframeMetadata {
                        input: starting_input@,
                        speed: starting_speed.speed_over_256,
                        elapsed_frames: 0,
                        elapsed_millis: starting_millis,
                    },
                    state: initial_keyframe_state@,
                },
            ]);
        }
        Ok(recorder)
    }

    /// Close the replay file recorder: perform a final rollover and return
    /// the two sinks. The recorder can no longer be written to.
    #[verifier::rlimit(100)]
    #[verifier::spinoff_prover]
    pub fn close(&mut self) -> (r: Result<(F, T), (F, T, ReplayFileWriteError)>)
        requires
            old(self).wf(),
            !old(self).spec_closed(),
        ensures
            final(self).wf(),
            final(self).spec_closed(),
            final(self).spec_poisoned(),
            r matches Ok((f, t)) ==> {
                &&& !old(self).spec_poisoned()
                &&& final(self).spec_flushed().len() == old(self).spec_flushed().len() + 1
                &&& final(self).spec_flushed().drop_last() == old(self).spec_flushed()
                &&& (forall|i: int|
                    0 <= i < final(self).spec_flushed().len() ==> wf_blob_packet(
                        #[trigger] final(self).spec_flushed()[i],
                    ))
                &&& flatten_blobs(final(self).spec_flushed()) == pending_flush(
                    old(self).spec_log(),
                    old(self).spec_pending(),
                )
                &&& f.sink_bytes() == old(self).spec_prefix() + spec_enc_packet_seq(
                    final(self).spec_flushed(),
                )
                &&& t.sink_bytes() == f.sink_bytes()
            },
    {
        if self.poisoned {
            proof {
                assert(self.final_sink is Some);
                assert(self.temporary_sink is Some);
            }
            let f = self.final_sink.take();
            let t = self.temporary_sink.take();
            match (f, t) {
                (Some(f), Some(t)) => {
                    return Err((f, t, ReplayFileWriteError::Poisoned));
                },
                _ => {
                    return vstd::pervasive::unreached();
                },
            }
        }
        let rb = self.next_blob();
        proof {
            assert(self.final_sink is Some);
            assert(self.temporary_sink is Some);
        }
        self.poisoned = true;
        let f = self.final_sink.take();
        let t = self.temporary_sink.take();
        match (f, t, rb) {
            (Some(f), Some(t), Ok(())) => {
                proof {
                    assert(flatten_blobs(self.flushed_blobs@) + self.blob_packets@
                        =~= flatten_blobs(self.flushed_blobs@));
                }
                Ok((f, t))
            },
            (Some(f), Some(t), Err(e)) => Err((f, t, e)),
            _ => vstd::pervasive::unreached(),
        }
    }
}

/// Bytes-for-bytes equality of two slices.
fn bytes_eq(a: &[u8], b: &[u8]) -> (r: bool)
    ensures
        r <==> a@ == b@,
{
    if a.len() != b.len() {
        proof {
            assert(a@.len() != b@.len());
        }
        return false;
    }
    let n = a.len();
    let mut i: usize = 0;
    while i < n
        invariant
            n == a@.len(),
            n == b@.len(),
            i <= n,
            forall|j: int| 0 <= j < i ==> a@[j] == b@[j],
        decreases n - i,
    {
        if a[i] != b[i] {
            return false;
        }
        i = i + 1;
    }
    proof {
        assert(a@ =~= b@);
    }
    true
}

} // verus!
