//! Replay file player functionality.
//!
//! A player parses a full replay byte buffer eagerly into a top-level
//! packet list, building a keyframe index and a bookmark index in one
//! linear scan without decompressing any blob. Iteration transparently
//! flattens compressed blobs, decompressing each at first use; seeking
//! positions the read cursor exactly at a keyframe sub-packet.

use vstd::prelude::*;
use crate::codec::kf_views;
use crate::codec::bm_views;
use crate::codec::packet_views;
use crate::codec::spec_parse_packet_stream;
use crate::codec::spec_parse_packet_stream_lenient;
use crate::codec::BookmarkMetadata;
use crate::codec::KeyframeMetadata;
use crate::codec::Packet;
use crate::codec::ReadFailure;
use crate::codec::SpecBookmarkMetadata;
use crate::codec::SpecKeyframeMetadata;
use crate::codec::SpecPacket;
use crate::codec::UnsignedInteger;
use crate::replay_file::header::spec_parse_header;
use crate::replay_file::header::ReplayFileMetadata;
use crate::replay_file::record::blob_inner;
use crate::util::zstd_decompress_of;

verus! {

/// An error that occurred when reading a replay file.
#[derive(Clone, PartialEq, Debug)]
pub enum ReplayFileReadError {
    /// The header or the stream structure is unusable.
    InvalidReplayFile {
        /// Diagnostic text.
        explanation: String,
    },
    /// A packet failed to decode.
    BrokenPacket {
        /// Diagnostic text.
        explanation: String,
    },
    /// The end of the stream was reached.
    EndOfStream,
    /// An I/O or decompression failure, with a free-text explanation.
    Other {
        /// Diagnostic text.
        explanation: String,
    },
}

/// An error when seeking to a given keyframe.
#[derive(Clone, PartialEq, Debug)]
pub enum ReplaySeekError {
    /// No keyframe at the given frame index. The largest indexed frame at
    /// or below the given one is provided at `best` instead.
    NoSuchKeyframe {
        /// The frame that was asked for.
        given: UnsignedInteger,
        /// The largest indexed frame at or below `given`.
        best: UnsignedInteger,
    },
    /// An error occurred when seeking (usually a decompression error).
    ReadError {
        /// The underlying read error.
        error: ReplayFileReadError,
    },
}

/// The keyframe payloads visible in a top-level scan: bare keyframes and
/// the sidecar lists of compressed blobs, in file order, without
/// decompressing anything.
pub open spec fn top_keyframes(ps: Seq<SpecPacket>) -> Seq<SpecKeyframeMetadata>
    decreases ps.len(),
{
    if ps.len() == 0 {
        Seq::empty()
    } else {
        top_keyframes(ps.drop_last()) + (match ps.last() {
            SpecPacket::Keyframe { metadata, .. } => seq![metadata],
            SpecPacket::CompressedBlob { keyframes, .. } => keyframes,
            _ => Seq::empty(),
        })
    }
}

/// The bookmark payloads visible in a top-level scan.
pub open spec fn top_bookmarks(ps: Seq<SpecPacket>) -> Seq<SpecBookmarkMetadata>
    decreases ps.len(),
{
    if ps.len() == 0 {
        Seq::empty()
    } else {
        top_bookmarks(ps.drop_last()) + (match ps.last() {
            SpecPacket::Bookmark { metadata } => seq![metadata],
            SpecPacket::CompressedBlob { bookmarks, .. } => bookmarks,
            _ => Seq::empty(),
        })
    }
}

/// The total frame count a top-level scan reports: the last keyframe's
/// elapsed-frame count, plus any bare frame advances after it.
pub open spec fn spec_total_frames(ps: Seq<SpecPacket>) -> nat
    decreases ps.len(),
{
    if ps.len() == 0 {
        0
    } else {
        let t = spec_total_frames(ps.drop_last());
        match ps.last() {
            SpecPacket::Keyframe { metadata, .. } => metadata.elapsed_frames as nat,
            SpecPacket::CompressedBlob { keyframes, .. } => if keyframes.len() > 0 {
                keyframes.last().elapsed_frames as nat
            } else {
                t
            },
            SpecPacket::RunFrames { frames } => (t + frames) as nat,
            _ => t,
        }
    }
}

/// The stream with every compressed blob replaced by the packets it holds.
pub open spec fn flatten_stream(ps: Seq<SpecPacket>) -> Seq<SpecPacket>
    decreases ps.len(),
{
    if ps.len() == 0 {
        Seq::empty()
    } else {
        flatten_stream(ps.drop_last()) + (if ps.last() is CompressedBlob {
            blob_inner(ps.last())
        } else {
            seq![ps.last()]
        })
    }
}

/// Flattening unfolds at the front as well.
#[verifier::rlimit(100)]
#[verifier::spinoff_prover]
pub proof fn lemma_flatten_stream_first(ps: Seq<SpecPacket>)
    requires
        ps.len() > 0,
    ensures
        flatten_stream(ps) == (if ps.first() is CompressedBlob {
            blob_inner(ps.first())
        } else {
            seq![ps.first()]
        }) + flatten_stream(ps.drop_first()),
    decreases ps.len(),
{
    let head = if ps.first() is CompressedBlob {
        blob_inner(ps.first())
    } else {
        seq![ps.first()]
    };
    if ps.len() == 1 {
        assert(ps.drop_last() =~= Seq::<SpecPacket>::empty());
        assert(ps.drop_first() =~= Seq::<SpecPacket>::empty());
        assert(ps.first() == ps.last());
        assert(flatten_stream(ps) =~= head + flatten_stream(ps.drop_first()));
    } else {
        let body = ps.drop_last();
        lemma_flatten_stream_first(body);
        assert(ps.drop_first().drop_last() =~= body.drop_first());
        assert(ps.drop_first().last() == ps.last());
        assert(ps.drop_first().len() > 0);
        assert(body.first() == ps.first());
        let tail_part = if ps.last() is CompressedBlob {
            blob_inner(ps.last())
        } else {
            seq![ps.last()]
        };
        assert(flatten_stream(ps) == flatten_stream(body) + tail_part);
        assert(flatten_stream(body) == head + flatten_stream(body.drop_first()));
        assert(flatten_stream(ps.drop_first()) == flatten_stream(body.drop_first()) + tail_part);
        assert((head + flatten_stream(body.drop_first())) + tail_part =~= head + (flatten_stream(
            body.drop_first(),
        ) + tail_part));
    }
}

/// Parses the header, the patch bytes and the packet stream, and checks
/// that the stream is non-empty and starts with a keyframe (bare, or a
/// blob whose sidecar list is non-empty).
#[verifier::rlimit(100)]
#[verifier::spinoff_prover]
fn load_packets(data: &[u8], allow_some_corruption: bool) -> (r: Result<
    (ReplayFileMetadata, Option<Vec<u8>>, Vec<Packet>, u64),
    ReplayFileReadError,
>)
    ensures
        (r matches Ok((m, patch, pk, plen)) ==> {
            &&& spec_player_packets(data@, allow_some_corruption) == Some(packet_views(pk@))
            &&& pk@.len() > 0
            &&& (match packet_views(pk@)[0] {
                SpecPacket::Keyframe { .. } => true,
                SpecPacket::CompressedBlob { keyframes, .. } => keyframes.len() > 0,
                _ => false,
            })
            &&& spec_parse_header(data@) == Ok::<_, crate::replay_file::header::HeaderIssue>(
                (m@, plen),
            )
            &&& (match patch {
                Some(p) => p@ == data@.subrange(2048, 2048 + plen as int) && p@.len() > 0,
                None => plen == 0,
            })
        }),
        (r is Err ==> !(spec_player_packets(data@, allow_some_corruption) matches Some(ps)
            && spec_valid_start(ps))),
{
        let dlen = data.len();
        let header = match crate::replay_file::header::parse_raw_header(data) {
            Ok(h) => h,
            Err(e) => {
                return Err(ReplayFileReadError::InvalidReplayFile { explanation: e });
            },
        };
        let (replay_file_metadata, patch_len64) = header;
        if patch_len64 > usize::MAX as u64 - 2048 {
            return Err(
                ReplayFileReadError::InvalidReplayFile {
                    explanation: String::from_str("cannot read patch length"),
                },
            );
        }
        let patch_len: usize = patch_len64 as usize;
        let patch_end: usize = 2048 + patch_len;
        if patch_end > data.len() {
            return Err(
                ReplayFileReadError::InvalidReplayFile {
                    explanation: String::from_str("cannot read patch data"),
                },
            );
        }
        let patch_data: Option<Vec<u8>> = if patch_len > 0 {
            Some(vstd::slice::slice_to_vec(&data[2048..patch_end]))
        } else {
            None
        };
        let all_packets = match crate::codec::read_packet_stream(
            data,
            patch_end,
            allow_some_corruption,
        ) {
            Ok(ps) => ps,
            Err(_) => {
                proof {
                    assert(spec_player_packets(data@, allow_some_corruption) is None);
                }
                return Err(
                    ReplayFileReadError::BrokenPacket {
                        explanation: String::from_str("a packet failed to decode"),
                    },
                );
            },
        };
        proof {
            assert(spec_player_packets(data@, allow_some_corruption) == Some(
                packet_views(all_packets@),
            ));
        }
        if all_packets.len() == 0 {
            return Err(
                ReplayFileReadError::InvalidReplayFile {
                    explanation: String::from_str("no packets detected in replay file"),
                },
            );
        }
        let first_ok = match &all_packets[0] {
            Packet::Keyframe { .. } => true,
            Packet::CompressedBlob { keyframes, .. } => keyframes.len() > 0,
            _ => false,
        };
        proof {
            assert(packet_views(all_packets@)[0] == all_packets@[0]@);
        }
        if !first_ok {
            return Err(
                ReplayFileReadError::InvalidReplayFile {
                    explanation: String::from_str("replay does not start with a keyframe"),
                },
            );
        }
        Ok((replay_file_metadata, patch_data, all_packets, patch_len64))
}

/// One linear scan over the top-level packets: collects the keyframe and
/// bookmark indices, the total frame count, and an empty decompression
/// cache, without decompressing any blob.
#[verifier::rlimit(100)]
#[verifier::spinoff_prover]
fn scan_packets(all_packets: &Vec<Packet>) -> (r: (
    Vec<KeyframeMetadata>,
    Vec<BookmarkMetadata>,
    u64,
    Vec<Option<Vec<Packet>>>,
))
    ensures
        kf_views(r.0@) == top_keyframes(packet_views(all_packets@)),
        bm_views(r.1@) == top_bookmarks(packet_views(all_packets@)),
        spec_total_frames(packet_views(all_packets@)) <= u64::MAX ==> r.2 as nat
            == spec_total_frames(packet_views(all_packets@)),
        r.3@.len() == all_packets@.len(),
        forall|j: int| 0 <= j < r.3@.len() ==> (#[trigger] r.3@[j]) is None,
{
    let n = all_packets.len();
    let ghost views = packet_views(all_packets@);
    let mut keyframes: Vec<KeyframeMetadata> = Vec::new();
        let mut bookmarks: Vec<BookmarkMetadata> = Vec::new();
        let mut total_frame_count: u64 = 0;
        let mut decompressed: Vec<Option<Vec<Packet>>> = Vec::new();
        let mut i: usize = 0;
        while i < n
            invariant
                n == all_packets@.len(),
                views == packet_views(all_packets@),
                i <= n,
                decompressed@.len() == i,
                forall|j: int| 0 <= j < i ==> (#[trigger] decompressed@[j]) is None,
                kf_views(keyframes@) == top_keyframes(views.take(i as int)),
                bm_views(bookmarks@) == top_bookmarks(views.take(i as int)),
                spec_total_frames(views.take(i as int)) <= u64::MAX ==> total_frame_count as nat
                    == spec_total_frames(views.take(i as int)),
            decreases n - i,
        {
            proof {
                assert(views.take(i + 1) =~= views.take(i as int).push(views[i as int]));
                lemma_top_push(views.take(i as int), views[i as int]);
            }
            match &all_packets[i] {
                Packet::Keyframe { metadata, .. } => {
                    total_frame_count = metadata.elapsed_frames;
                    keyframes.push(metadata.duplicate());
                    proof {
                        assert(kf_views(keyframes@) =~= top_keyframes(views.take(i + 1)));
                        assert(bm_views(bookmarks@) =~= top_bookmarks(views.take(i + 1)));
                    }
                },
                Packet::Bookmark { metadata } => {
                    bookmarks.push(metadata.duplicate());
                    proof {
                        assert(kf_views(keyframes@) =~= top_keyframes(views.take(i + 1)));
                        assert(bm_views(bookmarks@) =~= top_bookmarks(views.take(i + 1)));
                    }
                },
                Packet::RunFrames { frames } => {
                    total_frame_count = saturating_add_u64(total_frame_count, *frames);
                    proof {
                        assert(kf_views(keyframes@) =~= top_keyframes(views.take(i + 1)));
                        assert(bm_views(bookmarks@) =~= top_bookmarks(views.take(i + 1)));
                    }
                },
                Packet::CompressedBlob { keyframes: bkfs, bookmarks: bbms, .. } => {
                    if bkfs.len() > 0 {
                        total_frame_count = bkfs[bkfs.len() - 1].elapsed_frames;
                    }
                    let ghost kf_before = keyframes@;
                    let mut k: usize = 0;
                    while k < bkfs.len()
                        invariant
                            k <= bkfs@.len(),
                            kf_views(keyframes@) == kf_views(kf_before) + kf_views(
                                bkfs@.take(k as int),
                            ),
                        decreases bkfs@.len() - k,
                    {
                        proof {
                            assert(kf_views(bkfs@.take(k + 1)) =~= kf_views(
                                bkfs@.take(k as int),
                            ).push(bkfs@[k as int]@));
                            assert(kf_views(keyframes@).push(bkfs@[k as int]@) =~= kf_views(
                                kf_before,
                            ) + kf_views(bkfs@.take(k + 1)));
                        }
                        keyframes.push(bkfs[k].duplicate());
                        proof {
                            assert(kf_views(keyframes@) =~= kf_views(kf_before) + kf_views(
                                bkfs@.take(k + 1),
                            ));
                        }
                        k = k + 1;
                    }
                    let ghost bm_before = bookmarks@;
                    let mut k2: usize = 0;
                    while k2 < bbms.len()
                        invariant
                            k2 <= bbms@.len(),
                            bm_views(bookmarks@) == bm_views(bm_before) + bm_views(
                                bbms@.take(k2 as int),
                            ),
                        decreases bbms@.len() - k2,
                    {
                        proof {
                            assert(bm_views(bbms@.take(k2 + 1)) =~= bm_views(
                                bbms@.take(k2 as int),
                            ).push(bbms@[k2 as int]@));
                            assert(bm_views(bookmarks@).push(bbms@[k2 as int]@) =~= bm_views(
                                bm_before,
                            ) + bm_views(bbms@.take(k2 + 1)));
                        }
                        bookmarks.push(bbms[k2].duplicate());
                        proof {
                            assert(bm_views(bookmarks@) =~= bm_views(bm_before) + bm_views(
                                bbms@.take(k2 + 1),
                            ));
                        }
                        k2 = k2 + 1;
                    }
                    proof {
                        assert(bkfs@.take(bkfs@.len() as int) =~= bkfs@);
                        assert(bbms@.take(bbms@.len() as int) =~= bbms@);
                        assert(kf_views(keyframes@) =~= top_keyframes(views.take(i + 1)));
                        assert(bm_views(bookmarks@) =~= top_bookmarks(views.take(i + 1)));
                    }
                },
                _ => {
                    proof {
                        assert(kf_views(keyframes@) =~= top_keyframes(views.take(i + 1)));
                        assert(bm_views(bookmarks@) =~= top_bookmarks(views.take(i + 1)));
                    }
                },
            }
            decompressed.push(None);
            i = i + 1;
        }
    proof {
        assert(views.take(n as int) =~= views);
    }
    (keyframes, bookmarks, total_frame_count, decompressed)
}

/// A top-level packet visibly carries a keyframe at this frame count: it
/// is a bare keyframe at that frame, or a compressed blob whose sidecar
/// list holds one.
pub open spec fn packet_carries_keyframe(p: SpecPacket, f: u64) -> bool {
    match p {
        SpecPacket::Keyframe { metadata, .. } => metadata.elapsed_frames == f,
        SpecPacket::CompressedBlob { keyframes, .. } => exists|m: int|
            0 <= m < keyframes.len() && (#[trigger] keyframes[m]).elapsed_frames == f,
        _ => false,
    }
}

/// The first top-level packet that carries a keyframe at this frame count,
/// with whether it is a bare keyframe.
pub open spec fn spec_first_carrier(ps: Seq<SpecPacket>, f: u64) -> Option<(int, bool)>
    decreases ps.len(),
{
    if ps.len() == 0 {
        None
    } else if packet_carries_keyframe(ps[0], f) {
        Some((0int, ps[0] is Keyframe))
    } else {
        match spec_first_carrier(ps.drop_first(), f) {
            Some((i, b)) => Some((i + 1, b)),
            None => None,
        }
    }
}

/// Every entry of the top-level keyframe index is carried by some
/// top-level packet, so a carrier exists for every indexed frame.
proof fn lemma_top_keyframes_carrier(ps: Seq<SpecPacket>, k: int)
    requires
        0 <= k < top_keyframes(ps).len(),
    ensures
        exists|j: int|
            0 <= j < ps.len() && packet_carries_keyframe(
                #[trigger] ps[j],
                top_keyframes(ps)[k].elapsed_frames,
            ),
    decreases ps.len(),
{
    let prefix = ps.drop_last();
    let f = top_keyframes(ps)[k].elapsed_frames;
    if k < top_keyframes(prefix).len() {
        lemma_top_keyframes_carrier(prefix, k);
        assert(top_keyframes(ps)[k] == top_keyframes(prefix)[k]);
        let j = choose|j: int|
            0 <= j < prefix.len() && packet_carries_keyframe(#[trigger] prefix[j], f);
        assert(ps[j] == prefix[j]);
        assert(packet_carries_keyframe(ps[j], f));
    } else {
        let j = ps.len() - 1;
        match ps[j] {
            SpecPacket::Keyframe { metadata, .. } => {
                assert(top_keyframes(ps)[k] == metadata);
                assert(packet_carries_keyframe(ps[j], f));
            },
            SpecPacket::CompressedBlob { keyframes, .. } => {
                let m = k - top_keyframes(prefix).len();
                assert(top_keyframes(ps)[k] == keyframes[m]);
                assert(keyframes[m].elapsed_frames == f);
                assert(packet_carries_keyframe(ps[j], f));
            },
            _ => {
                assert(false);
            },
        }
    }
}

/// A packet that carries a keyframe at a frame puts an entry at that
/// frame into the top-level index.
proof fn lemma_carrier_indexed(ps: Seq<SpecPacket>, j: int, f: u64)
    requires
        0 <= j < ps.len(),
        packet_carries_keyframe(ps[j], f),
    ensures
        exists|k: int|
            0 <= k < top_keyframes(ps).len() && (#[trigger] top_keyframes(ps)[k]).elapsed_frames
                == f,
    decreases ps.len(),
{
    let prefix = ps.drop_last();
    if j < ps.len() - 1 {
        assert(prefix[j] == ps[j]);
        lemma_carrier_indexed(prefix, j, f);
        let k = choose|k: int|
            0 <= k < top_keyframes(prefix).len() && (#[trigger] top_keyframes(prefix)[
            k]).elapsed_frames == f;
        assert(top_keyframes(ps)[k] == top_keyframes(prefix)[k]);
    } else {
        match ps[j] {
            SpecPacket::Keyframe { metadata, .. } => {
                let k = top_keyframes(prefix).len() as int;
                assert(top_keyframes(ps)[k] == metadata);
            },
            SpecPacket::CompressedBlob { keyframes, .. } => {
                let m = choose|m: int|
                    0 <= m < keyframes.len() && (#[trigger] keyframes[m]).elapsed_frames == f;
                let k = top_keyframes(prefix).len() + m;
                assert(top_keyframes(ps)[k] == keyframes[m]);
            },
            _ => {
                assert(false);
            },
        }
    }
}

/// The first carrier found is indeed a carrier.
proof fn lemma_first_carrier_is_carrier(ps: Seq<SpecPacket>, f: u64)
    requires
        spec_first_carrier(ps, f) is Some,
    ensures
        exists|j: int| 0 <= j < ps.len() && packet_carries_keyframe(#[trigger] ps[j], f),
    decreases ps.len(),
{
    if ps.len() > 0 {
        if packet_carries_keyframe(ps[0], f) {
        } else {
            lemma_first_carrier_is_carrier(ps.drop_first(), f);
            let j = choose|j: int|
                0 <= j < ps.drop_first().len() && packet_carries_keyframe(
                    #[trigger] ps.drop_first()[j],
                    f,
                );
            assert(ps[j + 1] == ps.drop_first()[j]);
            assert(packet_carries_keyframe(ps[j + 1], f));
        }
    }
}

/// A carrier somewhere means a first carrier exists.
proof fn lemma_first_carrier_exists(ps: Seq<SpecPacket>, f: u64)
    requires
        exists|j: int| 0 <= j < ps.len() && packet_carries_keyframe(#[trigger] ps[j], f),
    ensures
        spec_first_carrier(ps, f) is Some,
    decreases ps.len(),
{
    if ps.len() > 0 && !packet_carries_keyframe(ps[0], f) {
        let j = choose|j: int| 0 <= j < ps.len() && packet_carries_keyframe(#[trigger] ps[j], f);
        assert(j > 0);
        assert(ps.drop_first()[j - 1] == ps[j]);
        assert(packet_carries_keyframe(ps.drop_first()[j - 1], f));
        lemma_first_carrier_exists(ps.drop_first(), f);
    }
}

/// Object that iterates through packets in a replay file.
pub struct ReplayFilePlayer {
    replay_file_metadata: ReplayFileMetadata,
    patch_data: Option<Vec<u8>>,
    all_uncompressed_packets: Vec<Packet>,
    keyframes: Vec<KeyframeMetadata>,
    bookmarks: Vec<BookmarkMetadata>,
    total_frame_count: UnsignedInteger,
    decompressed: Vec<Option<Vec<Packet>>>,
    next_uncompressed_packet_index: usize,
    next_compressed_packet_index: Option<usize>,
}

impl ReplayFilePlayer {
    /// The top-level packets of the replay, blobs still compressed.
    pub closed spec fn spec_packets(&self) -> Seq<SpecPacket> {
        packet_views(self.all_uncompressed_packets@)
    }

    /// The keyframe index, in file order.
    pub closed spec fn spec_keyframes(&self) -> Seq<SpecKeyframeMetadata> {
        kf_views(self.keyframes@)
    }

    /// The bookmark index, in file order.
    pub closed spec fn spec_bookmarks(&self) -> Seq<SpecBookmarkMetadata> {
        bm_views(self.bookmarks@)
    }

    /// The parsed replay metadata.
    pub closed spec fn spec_metadata(&self) -> crate::replay_file::header::SpecReplayFileMetadata {
        self.replay_file_metadata@
    }

    /// The patch bytes carried after the header, empty when none.
    pub closed spec fn spec_patch(&self) -> Seq<u8> {
        match self.patch_data {
            Some(p) => p@,
            None => Seq::empty(),
        }
    }

    /// A keyframe exists at exactly this elapsed-frame count.
    pub open spec fn has_keyframe_at(&self, frame: u64) -> bool {
        exists|i: int|
            0 <= i < self.spec_keyframes().len() && (#[trigger] self.spec_keyframes()[
            i]).elapsed_frames == frame
    }

    /// Every compressed blob of the stream is coherent: it decompresses and
    /// parses to the packets its sidecar lists describe. True of every file
    /// this engine writes; a foreign file may violate it, and then
    /// iteration reports errors instead of packets.
    pub open spec fn stream_coherent(&self) -> bool {
        forall|j: int|
            0 <= j < self.spec_packets().len() ==> ((#[trigger] self.spec_packets()[j])
                is CompressedBlob ==> crate::replay_file::record::wf_blob_packet(
                self.spec_packets()[j],
            ))
    }

    /// The player's internal consistency.
    pub closed spec fn wf(&self) -> bool {
        &&& self.next_uncompressed_packet_index as int <= self.spec_packets().len()
        &&& self.decompressed@.len() == self.spec_packets().len()
        &&& (forall|j: int|
            0 <= j < self.decompressed@.len() ==> cache_entry_ok(
                self.spec_packets()[j],
                #[trigger] self.decompressed@[j],
            ))
        &&& (self.next_compressed_packet_index matches Some(i) ==> {
            &&& (self.next_uncompressed_packet_index as int) < self.spec_packets().len()
            &&& self.spec_packets()[self.next_uncompressed_packet_index as int] is CompressedBlob
            &&& self.decompressed@[self.next_uncompressed_packet_index as int] matches Some(v)
                && i <= v@.len()
        })
        &&& self.spec_keyframes() == top_keyframes(self.spec_packets())
        &&& self.spec_bookmarks() == top_bookmarks(self.spec_packets())
        &&& self.spec_packets().len() > 0
        &&& self.has_keyframe_at(0)
        &&& (spec_total_frames(self.spec_packets()) <= u64::MAX ==> self.total_frame_count as nat
            == spec_total_frames(self.spec_packets()))
    }

    /// The flattened packets still ahead of the read cursor.
    pub closed spec fn spec_remaining(&self) -> Seq<SpecPacket> {
        let rest = flatten_stream(
            self.spec_packets().skip(self.next_uncompressed_packet_index as int),
        );
        match self.next_compressed_packet_index {
            None => rest,
            Some(i) => rest.skip(i as int),
        }
    }

    /// Get a reference to the keyframe index, in file order; the index
    /// collects bare keyframes and the sidecar lists of compressed blobs.
    pub fn all_keyframes(&self) -> (r: &Vec<KeyframeMetadata>)
        ensures
            kf_views(r@) == self.spec_keyframes(),
    {
        &self.keyframes
    }

    /// Get a reference to the bookmark index, in file order.
    pub fn all_bookmarks(&self) -> (r: &Vec<BookmarkMetadata>)
        ensures
            bm_views(r@) == self.spec_bookmarks(),
    {
        &self.bookmarks
    }

    /// Get all top-level uncompressed packets.
    pub fn all_uncompressed_packets(&self) -> (r: &Vec<Packet>)
        ensures
            packet_views(r@) == self.spec_packets(),
    {
        &self.all_uncompressed_packets
    }

    /// Get the replay metadata.
    pub fn get_replay_metadata(&self) -> (r: &ReplayFileMetadata)
        ensures
            r@ == self.spec_metadata(),
    {
        &self.replay_file_metadata
    }

    /// Get the patch data, if any.
    pub fn get_patch_data(&self) -> (r: Option<&Vec<u8>>)
        ensures
            (r matches Some(p) ==> p@ == self.spec_patch()),
            (r is None ==> self.spec_patch().len() == 0),
    {
        match &self.patch_data {
            Some(p) => Some(p),
            None => None,
        }
    }

    /// Get the total frame count: the last keyframe's elapsed-frame count
    /// plus any bare frame advances recorded after it. If the replay was
    /// not properly finalized, this number may not be accurate.
    pub fn get_total_frames(&self) -> (r: UnsignedInteger)
        requires
            self.wf(),
        ensures
            spec_total_frames(self.spec_packets()) <= u64::MAX ==> r == spec_total_frames(
                self.spec_packets(),
            ),
    {
        self.total_frame_count
    }
}

/// What the initial scan accepts: the packets of the replay, provided the
/// header parses, the patch bytes are in bounds, and — without
/// corruption-tolerance — every packet decodes.
pub open spec fn spec_player_packets(data: Seq<u8>, allow_some_corruption: bool) -> Option<
    Seq<SpecPacket>,
> {
    match spec_parse_header(data) {
        Err(_) => None,
        Ok((m, plen)) => if 2048 + plen > data.len() {
            None
        } else if allow_some_corruption {
            Some(spec_parse_packet_stream_lenient(data, 2048 + plen as int))
        } else {
            match spec_parse_packet_stream(data, 2048 + plen as int) {
                Ok(ps) => Some(ps),
                Err(_) => None,
            }
        },
    }
}

/// The stream-structure validation: the replay must hold at least one
/// packet, start with a bare keyframe or a compressed blob whose embedded
/// keyframe list is non-empty, and carry a keyframe at elapsed-frame 0.
pub open spec fn spec_valid_start(ps: Seq<SpecPacket>) -> bool {
    &&& ps.len() > 0
    &&& (match ps[0] {
        SpecPacket::Keyframe { .. } => true,
        SpecPacket::CompressedBlob { keyframes, .. } => keyframes.len() > 0,
        _ => false,
    })
    &&& (exists|i: int|
        0 <= i < top_keyframes(ps).len() && (#[trigger] top_keyframes(ps)[i]).elapsed_frames == 0)
}

proof fn lemma_top_push(ps: Seq<SpecPacket>, p: SpecPacket)
    ensures
        top_keyframes(ps.push(p)) == top_keyframes(ps) + (match p {
            SpecPacket::Keyframe { metadata, .. } => seq![metadata],
            SpecPacket::CompressedBlob { keyframes, .. } => keyframes,
            _ => Seq::empty(),
        }),
        top_bookmarks(ps.push(p)) == top_bookmarks(ps) + (match p {
            SpecPacket::Bookmark { metadata } => seq![metadata],
            SpecPacket::CompressedBlob { bookmarks, .. } => bookmarks,
            _ => Seq::empty(),
        }),
        spec_total_frames(ps.push(p)) == (match p {
            SpecPacket::Keyframe { metadata, .. } => metadata.elapsed_frames as nat,
            SpecPacket::CompressedBlob { keyframes, .. } => if keyframes.len() > 0 {
                keyframes.last().elapsed_frames as nat
            } else {
                spec_total_frames(ps)
            },
            SpecPacket::RunFrames { frames } => (spec_total_frames(ps) + frames) as nat,
            _ => spec_total_frames(ps),
        }),
{
    assert(ps.push(p).drop_last() =~= ps);
    assert(ps.push(p).last() == p);
}

impl ReplayFilePlayer {
    /// Try to read a replay byte buffer.
    ///
    /// With `allow_some_corruption`, decoding stops at the last packet that
    /// decoded cleanly instead of failing the whole load. Stream-structure
    /// validation (the mandatory initial keyframe) is never waived.
    #[verifier::rlimit(100)]
    #[verifier::spinoff_prover]
    pub fn new(data: &[u8], allow_some_corruption: bool) -> (r: Result<
        ReplayFilePlayer,
        ReplayFileReadError,
    >)
        ensures
            (r matches Ok(p) ==> {
                &&& p.wf()
                &&& spec_player_packets(data@, allow_some_corruption) == Some(p.spec_packets())
                &&& spec_valid_start(p.spec_packets())
                &&& spec_parse_header(data@) matches Ok((m, plen)) && p.spec_metadata() == m
                    && p.spec_patch() == data@.subrange(2048, 2048 + plen as int)
                &&& p.spec_remaining() == flatten_stream(p.spec_packets())
                &&& p.spec_keyframes() == top_keyframes(p.spec_packets())
                &&& p.spec_bookmarks() == top_bookmarks(p.spec_packets())
            }),
            (r is Err ==> !(spec_player_packets(data@, allow_some_corruption) matches Some(ps)
                && spec_valid_start(ps))),
    {
        let loaded = load_packets(data, allow_some_corruption);
        let (replay_file_metadata, patch_data, all_packets, patch_len64) = match loaded {
            Ok(t) => t,
            Err(e) => {
                return Err(e);
            },
        };
        let (keyframes, bookmarks, total_frame_count, decompressed) = scan_packets(
            &all_packets,
        );
        let has_zero = kf_list_has_frame(&keyframes, 0);
        if !has_zero {
            return Err(
                ReplayFileReadError::InvalidReplayFile {
                    explanation: String::from_str("replay has no keyframe at frame 0"),
                },
            );
        }
        let player = ReplayFilePlayer {
            replay_file_metadata,
            patch_data,
            all_uncompressed_packets: all_packets,
            keyframes,
            bookmarks,
            total_frame_count,
            decompressed,
            next_uncompressed_packet_index: 0,
            next_compressed_packet_index: None,
        };
        proof {
            assert(player.spec_packets().skip(0) =~= player.spec_packets());
            assert(player.spec_patch() =~= data@.subrange(
                2048,
                2048 + patch_len64 as int,
            ));
            assert(player.spec_keyframes() == top_keyframes(player.spec_packets()));
            assert(spec_valid_start(player.spec_packets()));
            assert(player.wf());
            assert(spec_player_packets(data@, allow_some_corruption) == Some(
                player.spec_packets(),
            ));
        }
        Ok(player)
    }

    /// Ensures the compressed blob at `idx` is decompressed and parsed in
    /// the cache, decompressing synchronously if needed. Fails when the
    /// blob does not decompress to exactly its recorded uncompressed size
    /// or its contents fail to decode; a coherent blob always succeeds.
    fn decompress_immediately(&mut self, idx: usize) -> (r: Result<(), ReplayFileReadError>)
        requires
            old(self).wf(),
            idx < old(self).spec_packets().len(),
            old(self).spec_packets()[idx as int] is CompressedBlob,
        ensures
            final(self).wf(),
            final(self).spec_packets() == old(self).spec_packets(),
            final(self).spec_keyframes() == old(self).spec_keyframes(),
            final(self).spec_bookmarks() == old(self).spec_bookmarks(),
            final(self).spec_metadata() == old(self).spec_metadata(),
            final(self).spec_patch() == old(self).spec_patch(),
            final(self).spec_remaining() == old(self).spec_remaining(),
            final(self).spec_cursor() == old(self).spec_cursor(),
            r is Ok ==> final(self).spec_cached(idx as int),
            old(self).spec_cached(idx as int) ==> r is Ok,
            crate::replay_file::record::wf_blob_packet(old(self).spec_packets()[idx as int])
                ==> r is Ok,
            forall|j: int|
                0 <= j < old(self).spec_packets().len() && old(self).spec_cached(j) ==> final(self).spec_cached(j),
    {
        if self.decompressed[idx].is_some() {
            return Ok(());
        }
        let (uncompressed_size, compressed_copy) = match &self.all_uncompressed_packets[idx] {
            Packet::CompressedBlob { compressed_data, uncompressed_size, .. } => (
                *uncompressed_size,
                crate::codec::clone_bytes(compressed_data),
            ),
            _ => {
                return vstd::pervasive::unreached();
            },
        };
        let pkts = match decompress_blob(compressed_copy.as_slice(), uncompressed_size) {
            Ok(v) => v,
            Err(e) => {
                return Err(e);
            },
        };
        self.install_decompressed(idx, pkts);
        Ok(())
    }

    /// The blob a background prefetch should decompress next: the first
    /// not-yet-decompressed compressed blob strictly beyond the read
    /// cursor.
    pub fn next_prefetch_target(&self) -> (r: Option<usize>)
        requires
            self.wf(),
        ensures
            (r matches Some(i) ==> self.spec_cursor().0 < i < self.spec_packets().len()
                && self.spec_packets()[i as int] is CompressedBlob && !self.spec_cached(i as int)),
            (r is None ==> forall|j: int|
                self.spec_cursor().0 < j < self.spec_packets().len() ==> !((
                #[trigger] self.spec_packets()[j]) is CompressedBlob) || self.spec_cached(j)),
    {
        let n = self.all_uncompressed_packets.len();
        if self.next_uncompressed_packet_index >= n {
            return None;
        }
        let mut i: usize = self.next_uncompressed_packet_index + 1;
        while i < n
            invariant
                self.wf(),
                n == self.spec_packets().len(),
                self.spec_cursor().0 < i,
                forall|j: int|
                    self.spec_cursor().0 < j < i ==> !((#[trigger] self.spec_packets()[j])
                        is CompressedBlob) || self.spec_cached(j),
            decreases n - i,
        {
            let is_blob = match &self.all_uncompressed_packets[i] {
                Packet::CompressedBlob { .. } => true,
                _ => false,
            };
            if is_blob && self.decompressed[i].is_none() {
                return Some(i);
            }
            i = i + 1;
        }
        None
    }

    /// Installs a finished background decompression into the cache. The
    /// packets must be exactly what the blob at `idx` decompresses and
    /// parses to, which is what [`decompress_blob`] returns for its bytes.
    pub fn install_decompressed(&mut self, idx: usize, v: Vec<Packet>)
        requires
            old(self).wf(),
            idx < old(self).spec_packets().len(),
            old(self).spec_packets()[idx as int] is CompressedBlob,
            zstd_decompress_of(
                old(self).spec_packets()[idx as int]->CompressedBlob_compressed_data,
            ) matches Some(d) && d.len() == old(self).spec_packets()[
                idx as int]->CompressedBlob_uncompressed_size && spec_parse_packet_stream(d, 0)
                == Ok::<Seq<SpecPacket>, ReadFailure>(packet_views(v@)),
        ensures
            final(self).wf(),
            final(self).spec_cached(idx as int),
            final(self).spec_packets() == old(self).spec_packets(),
            final(self).spec_keyframes() == old(self).spec_keyframes(),
            final(self).spec_bookmarks() == old(self).spec_bookmarks(),
            final(self).spec_metadata() == old(self).spec_metadata(),
            final(self).spec_patch() == old(self).spec_patch(),
            final(self).spec_remaining() == old(self).spec_remaining(),
            final(self).spec_cursor() == old(self).spec_cursor(),
            forall|j: int|
                0 <= j < old(self).spec_packets().len() && old(self).spec_cached(j) ==> final(self).spec_cached(j),
    {
        proof {
            let c = self.next_uncompressed_packet_index as int;
            match self.next_compressed_packet_index {
                Some(i) => {
                    if c == idx {
                        match self.decompressed@[c] {
                            Some(v_old) => {
                                assert(packet_views(v_old@) == packet_views(v@));
                                assert(v@.len() == packet_views(v@).len());
                                assert(v_old@.len() == packet_views(v_old@).len());
                            },
                            None => {},
                        }
                    }
                },
                None => {},
            }
        }
        self.decompressed[idx] = Some(v);
        proof {
            assert forall|j: int| 0 <= j < self.decompressed@.len() implies cache_entry_ok(
                self.spec_packets()[j],
                #[trigger] self.decompressed@[j],
            ) by {
                if j != idx {
                    assert(cache_entry_ok(
                        old(self).spec_packets()[j],
                        old(self).decompressed@[j],
                    ));
                }
            }
        }
    }

    /// The blob at `j` is decompressed in the cache.
    pub closed spec fn spec_cached(&self, j: int) -> bool {
        self.decompressed@[j] is Some
    }

    /// The read cursor: the top-level index and, inside a blob, the
    /// sub-index.
    pub closed spec fn spec_cursor(&self) -> (int, Option<int>) {
        (
            self.next_uncompressed_packet_index as int,
            match self.next_compressed_packet_index {
                Some(i) => Some(i as int),
                None => None,
            },
        )
    }
}

impl ReplayFilePlayer {
    /// Get the next packet in the stream, flattening compressed blobs
    /// transparently and decompressing each on first encounter. Returns
    /// `Ok(None)` once the stream is exhausted; that is an end-of-stream
    /// signal, not an error.
    #[verifier::rlimit(100)]
    #[verifier::spinoff_prover]
    pub fn next_packet(&mut self) -> (r: Result<Option<Packet>, ReplayFileReadError>)
        requires
            old(self).wf(),
        ensures
            final(self).wf(),
            final(self).spec_packets() == old(self).spec_packets(),
            final(self).spec_keyframes() == old(self).spec_keyframes(),
            final(self).spec_bookmarks() == old(self).spec_bookmarks(),
            final(self).spec_metadata() == old(self).spec_metadata(),
            final(self).spec_patch() == old(self).spec_patch(),
            (r matches Ok(Some(p)) ==> old(self).spec_remaining().len() > 0 && p@ == old(self).spec_remaining()[0] && final(self).spec_remaining() == old(self).spec_remaining().drop_first()),
            (r matches Ok(None) ==> old(self).spec_remaining().len() == 0 && final(self).spec_remaining().len() == 0),
            (r is Err ==> final(self).spec_remaining() == old(self).spec_remaining()),
            (old(self).spec_cursor().0 == old(self).spec_packets().len() ==> r == Ok::<
                Option<Packet>,
                ReplayFileReadError,
            >(None)),
            (old(self).spec_cursor().0 < old(self).spec_packets().len() && !(old(
                self,
            ).spec_packets()[old(self).spec_cursor().0] is CompressedBlob) ==> r matches Ok(
                Some(_),
            )),
            (old(self).spec_cursor().0 < old(self).spec_packets().len() && old(self).spec_cached(
                old(self).spec_cursor().0,
            ) && (match old(self).spec_cursor().1 {
                Some(i) => i,
                None => 0,
            }) < blob_inner(old(self).spec_packets()[old(self).spec_cursor().0]).len() ==> r
                matches Ok(Some(_))),
            (old(self).stream_coherent() ==> (if old(self).spec_remaining().len() == 0 {
                r == Ok::<Option<Packet>, ReplayFileReadError>(None)
            } else {
                r matches Ok(Some(_))
            })),
        decreases old(self).spec_packets().len() - old(self).spec_cursor().0,
    {
        let n = self.all_uncompressed_packets.len();
        let idx = self.next_uncompressed_packet_index;
        if idx >= n {
            proof {
                assert(self.spec_packets().skip(idx as int) =~= Seq::<SpecPacket>::empty());
            }
            return Ok(None);
        }
        let is_blob = match &self.all_uncompressed_packets[idx] {
            Packet::CompressedBlob { .. } => true,
            _ => false,
        };
        proof {
            lemma_flatten_stream_first(self.spec_packets().skip(idx as int));
            assert(self.spec_packets().skip(idx as int).first() == self.spec_packets()[
                idx as int]);
            assert(self.spec_packets().skip(idx as int).drop_first() =~= self.spec_packets().skip(
                idx + 1,
            ));
        }
        if !is_blob {
            let p = clone_packet(&self.all_uncompressed_packets[idx]);
            self.next_uncompressed_packet_index = idx + 1;
            proof {
                assert(self.spec_remaining() =~= old(self).spec_remaining().drop_first());
            }
            return Ok(Some(p));
        }
        let rd = self.decompress_immediately(idx);
        if let Err(e) = rd {
            proof {
                if old(self).stream_coherent() {
                    assert(crate::replay_file::record::wf_blob_packet(
                        old(self).spec_packets()[idx as int],
                    ));
                    assert(false);
                }
            }
            return Err(e);
        }
        match self.take_from_cached_blob(idx) {
            Some(p) => Ok(Some(p)),
            None => {
                proof {
                    assert(self.spec_packets() == old(self).spec_packets());
                    assert(self.spec_remaining() == old(self).spec_remaining());
                }
                self.next_packet()
            },
        }
    }

    /// Takes the next packet out of the cached blob at the cursor, or
    /// advances the cursor past the blob and reports `None` when it is
    /// exhausted.
    #[verifier::rlimit(100)]
    #[verifier::spinoff_prover]
    fn take_from_cached_blob(&mut self, idx: usize) -> (r: Option<Packet>)
        requires
            old(self).wf(),
            idx == old(self).spec_cursor().0,
            idx < old(self).spec_packets().len(),
            old(self).spec_packets()[idx as int] is CompressedBlob,
            old(self).spec_cached(idx as int),
        ensures
            final(self).wf(),
            final(self).spec_packets() == old(self).spec_packets(),
            final(self).spec_keyframes() == old(self).spec_keyframes(),
            final(self).spec_bookmarks() == old(self).spec_bookmarks(),
            final(self).spec_metadata() == old(self).spec_metadata(),
            final(self).spec_patch() == old(self).spec_patch(),
            (r matches Some(p) ==> old(self).spec_remaining().len() > 0 && p@ == old(self).spec_remaining()[0] && final(self).spec_remaining() == old(self).spec_remaining().drop_first()),
            (r is None ==> final(self).spec_remaining() == old(self).spec_remaining() && final(self).spec_cursor().0 == idx + 1 && final(self).spec_cursor().1 is None),
            ((match old(self).spec_cursor().1 {
                Some(i) => i,
                None => 0,
            }) < blob_inner(old(self).spec_packets()[idx as int]).len() ==> r is Some),
    {
        proof {
            vstd::std_specs::vec::axiom_spec_len(&self.all_uncompressed_packets);
            lemma_flatten_stream_first(self.spec_packets().skip(idx as int));
            assert(self.spec_packets().skip(idx as int).first() == self.spec_packets()[
                idx as int]);
            assert(self.spec_packets().skip(idx as int).drop_first() =~= self.spec_packets().skip(
                idx + 1,
            ));
        }
        let inner_idx = match self.next_compressed_packet_index {
            Some(i) => i,
            None => 0,
        };
        let inner_len = match &self.decompressed[idx] {
            Some(v) => v.len(),
            None => {
                return vstd::pervasive::unreached();
            },
        };
        if inner_idx < inner_len {
            let p = match &self.decompressed[idx] {
                Some(v) => clone_packet(&v[inner_idx]),
                None => {
                    return vstd::pervasive::unreached();
                },
            };
            self.next_compressed_packet_index = Some(inner_idx + 1);
            proof {
                match self.decompressed@[idx as int] {
                    Some(v) => {
                        assert(blob_inner(self.spec_packets()[idx as int]) == packet_views(v@));
                        assert(p@ == old(self).spec_remaining()[0]);
                        assert(self.spec_remaining() =~= old(self).spec_remaining().drop_first());
                    },
                    None => {
                        assert(false);
                    },
                }
            }
            return Some(p);
        }
        proof {
            match self.decompressed@[idx as int] {
                Some(v) => {
                    assert(blob_inner(self.spec_packets()[idx as int]) == packet_views(v@));
                    assert(blob_inner(self.spec_packets()[idx as int]).skip(inner_idx as int)
                        =~= Seq::<SpecPacket>::empty());
                },
                None => {
                    assert(false);
                },
            }
        }
        self.next_compressed_packet_index = None;
        self.next_uncompressed_packet_index = idx + 1;
        // the cursor has passed this blob: evict its decompressed contents
        // to bound peak memory
        self.decompressed[idx] = None;
        proof {
            assert(self.spec_remaining() =~= old(self).spec_remaining());
            assert forall|j: int| 0 <= j < self.decompressed@.len() implies cache_entry_ok(
                self.spec_packets()[j],
                #[trigger] self.decompressed@[j],
            ) by {
                assert(cache_entry_ok(old(self).spec_packets()[j], old(self).decompressed@[j]));
            }
            assert(self.next_uncompressed_packet_index as int <= self.spec_packets().len());
            assert(self.decompressed@.len() == self.spec_packets().len());
            assert(self.spec_keyframes() == top_keyframes(self.spec_packets()));
            assert(self.spec_bookmarks() == top_bookmarks(self.spec_packets()));
            assert(self.spec_packets().len() > 0);
            assert(self.has_keyframe_at(0)) by {
                assert(old(self).has_keyframe_at(0));
                let z = choose|i: int|
                    0 <= i < old(self).spec_keyframes().len() && (#[trigger] old(self).spec_keyframes()[i]).elapsed_frames == 0;
                assert(self.spec_keyframes()[z].elapsed_frames == 0);
            }
            assert(self.wf());
        }
        None
    }

    /// Go to the given keyframe: on an exact match the read cursor is
    /// positioned at that keyframe sub-packet, so the next packet returned
    /// is the keyframe itself. On a miss, fails with `NoSuchKeyframe`
    /// reporting the largest indexed frame at or below the target.
    #[verifier::rlimit(100)]
    #[verifier::spinoff_prover]
    pub fn go_to_keyframe(&mut self, keyframe_frames_index: UnsignedInteger) -> (r: Result<
        (),
        ReplaySeekError,
    >)
        requires
            old(self).wf(),
        ensures
            final(self).wf(),
            final(self).spec_packets() == old(self).spec_packets(),
            final(self).spec_keyframes() == old(self).spec_keyframes(),
            final(self).spec_bookmarks() == old(self).spec_bookmarks(),
            final(self).spec_metadata() == old(self).spec_metadata(),
            final(self).spec_patch() == old(self).spec_patch(),
            !old(self).has_keyframe_at(keyframe_frames_index) <==> (r matches Err(
                ReplaySeekError::NoSuchKeyframe { given, best },
            ) && given == keyframe_frames_index),
            (r matches Err(ReplaySeekError::NoSuchKeyframe { given, best }) ==> {
                &&& given == keyframe_frames_index
                &&& best <= keyframe_frames_index
                &&& (exists|j: int|
                    0 <= j < old(self).spec_keyframes().len() && (#[trigger] old(self).spec_keyframes()[j]).elapsed_frames == best)
                &&& (forall|j: int|
                    0 <= j < old(self).spec_keyframes().len() && (#[trigger] old(self).spec_keyframes()[j]).elapsed_frames <= keyframe_frames_index ==> old(self).spec_keyframes()[j].elapsed_frames <= best)
            }),
            (r is Ok ==> final(self).spec_remaining().len() > 0 && (final(self).spec_remaining()[0] matches SpecPacket::Keyframe { metadata, .. }
                && metadata.elapsed_frames == keyframe_frames_index)),
            (r matches Err(e) && e is NoSuchKeyframe ==> final(self).spec_remaining() == old(
                self,
            ).spec_remaining() && final(self).spec_cursor() == old(self).spec_cursor() && (forall|
                j: int,
            |
                0 <= j < old(self).spec_packets().len() ==> final(self).spec_cached(j) == old(
                    self,
                ).spec_cached(j))),
            (spec_first_carrier(old(self).spec_packets(), keyframe_frames_index) matches Some(
                (i, bare),
            ) && bare ==> r is Ok),
            (old(self).stream_coherent() && old(self).has_keyframe_at(keyframe_frames_index)
                ==> r is Ok),
    {
        let f = keyframe_frames_index;
        let (found, best) = index_lookup(&self.keyframes, f);
        if !found {
            proof {
                if best == 0 {
                    let z = choose|j: int|
                        0 <= j < self.spec_keyframes().len() && (#[trigger] self.spec_keyframes()[
                        j]).elapsed_frames == 0;
                    assert(self.spec_keyframes()[z].elapsed_frames == best);
                }
                match spec_first_carrier(self.spec_packets(), f) {
                    Some((i, bare)) => {
                        if bare {
                            lemma_first_carrier_is_carrier(self.spec_packets(), f);
                            let j = choose|j: int|
                                0 <= j < self.spec_packets().len() && packet_carries_keyframe(
                                    #[trigger] self.spec_packets()[j],
                                    f,
                                );
                            lemma_carrier_indexed(self.spec_packets(), j, f);
                            assert(false);
                        }
                    },
                    None => {},
                }
            }
            return Err(ReplaySeekError::NoSuchKeyframe { given: f, best });
        }
        self.next_compressed_packet_index = None;
        proof {
            assert forall|j: int| 0 <= j < self.decompressed@.len() implies cache_entry_ok(
                self.spec_packets()[j],
                #[trigger] self.decompressed@[j],
            ) by {
                assert(cache_entry_ok(old(self).spec_packets()[j], old(self).decompressed@[j]));
            }
            assert(self.has_keyframe_at(0)) by {
                assert(old(self).has_keyframe_at(0));
                let z = choose|i: int|
                    0 <= i < old(self).spec_keyframes().len() && (#[trigger] old(self).spec_keyframes()[i]).elapsed_frames == 0;
                assert(self.spec_keyframes()[z].elapsed_frames == 0);
            }
            assert(self.wf());
        }
        let hit = find_top_container(&self.all_uncompressed_packets, f);
        let bi = match hit {
            Some((ti, true)) => {
                self.next_uncompressed_packet_index = ti;
                proof {
                    lemma_flatten_stream_first(self.spec_packets().skip(ti as int));
                    assert(self.spec_packets().skip(ti as int).first() == self.spec_packets()[
                        ti as int]);
                }
                return Ok(());
            },
            Some((ti, false)) => ti,
            None => {
                proof {
                    if self.has_keyframe_at(f) {
                        let k = choose|k: int|
                            0 <= k < self.spec_keyframes().len() && (
                            #[trigger] self.spec_keyframes()[k]).elapsed_frames == f;
                        lemma_top_keyframes_carrier(self.spec_packets(), k);
                        lemma_first_carrier_exists(self.spec_packets(), f);
                        assert(false);
                    }
                }
                return Err(
                    ReplaySeekError::ReadError {
                        error: ReplayFileReadError::BrokenPacket {
                            explanation: String::from_str(
                                "keyframe index does not match the stream",
                            ),
                        },
                    },
                );
            },
        };
        let rd = self.decompress_immediately(bi);
        if let Err(e) = rd {
            proof {
                if old(self).stream_coherent() {
                    assert(crate::replay_file::record::wf_blob_packet(
                        old(self).spec_packets()[bi as int],
                    ));
                    assert(false);
                }
            }
            return Err(ReplaySeekError::ReadError { error: e });
        }
        self.position_in_blob(bi, f)
    }

    /// Positions the cursor at the first keyframe with the given frame
    /// count inside the cached blob at `bi`.
    #[verifier::rlimit(100)]
    #[verifier::spinoff_prover]
    fn position_in_blob(&mut self, bi: usize, f: u64) -> (r: Result<(), ReplaySeekError>)
        requires
            old(self).wf(),
            bi < old(self).spec_packets().len(),
            old(self).spec_packets()[bi as int] is CompressedBlob,
            old(self).spec_cached(bi as int),
        ensures
            final(self).wf(),
            final(self).spec_packets() == old(self).spec_packets(),
            final(self).spec_keyframes() == old(self).spec_keyframes(),
            final(self).spec_bookmarks() == old(self).spec_bookmarks(),
            final(self).spec_metadata() == old(self).spec_metadata(),
            final(self).spec_patch() == old(self).spec_patch(),
            (r is Ok ==> final(self).spec_remaining().len() > 0 && (final(self).spec_remaining()[0] matches SpecPacket::Keyframe { metadata, .. }
                && metadata.elapsed_frames == f)),
            (r matches Err(e) ==> e is ReadError),
            (crate::replay_file::record::wf_blob_packet(old(self).spec_packets()[bi as int])
                && packet_carries_keyframe(old(self).spec_packets()[bi as int], f) ==> r is Ok),
    {
        self.next_uncompressed_packet_index = bi;
        let pos = match &self.decompressed[bi] {
            Some(v) => find_keyframe_pos(v, f),
            None => {
                return vstd::pervasive::unreached();
            },
        };
        let k = match pos {
            Some(k) => k,
            None => {
                self.next_compressed_packet_index = None;
                proof {
                    let ghost p = old(self).spec_packets()[bi as int];
                    if crate::replay_file::record::wf_blob_packet(p)
                        && packet_carries_keyframe(p, f) {
                        match self.decompressed@[bi as int] {
                            Some(v) => {
                                let inner = blob_inner(p);
                                assert(packet_views(v@) == inner);
                                assert(p->CompressedBlob_keyframes
                                    == crate::replay_file::record::keyframes_of(inner));
                                let m = choose|m: int|
                                    0 <= m < p->CompressedBlob_keyframes.len() && (
                                    #[trigger] p->CompressedBlob_keyframes[m]).elapsed_frames
                                        == f;
                                crate::replay_file::record::lemma_keyframes_of_member(inner, m);
                                assert(false);
                            },
                            None => {
                                assert(false);
                            },
                        }
                    }
            assert forall|j: int| 0 <= j < self.decompressed@.len() implies cache_entry_ok(
                self.spec_packets()[j],
                #[trigger] self.decompressed@[j],
            ) by {
                assert(cache_entry_ok(old(self).spec_packets()[j], old(self).decompressed@[j]));
            }
            assert(self.has_keyframe_at(0)) by {
                assert(old(self).has_keyframe_at(0));
                let z = choose|i: int|
                    0 <= i < old(self).spec_keyframes().len() && (#[trigger] old(self).spec_keyframes()[i]).elapsed_frames == 0;
                assert(self.spec_keyframes()[z].elapsed_frames == 0);
            }
            assert(self.wf());
                }
                return Err(
                    ReplaySeekError::ReadError {
                        error: ReplayFileReadError::BrokenPacket {
                            explanation: String::from_str(
                                "keyframe index does not match the stream",
                            ),
                        },
                    },
                );
            },
        };
        self.next_compressed_packet_index = Some(k);
        proof {
            lemma_flatten_stream_first(self.spec_packets().skip(bi as int));
            assert(self.spec_packets().skip(bi as int).first() == self.spec_packets()[
                bi as int]);
            match self.decompressed@[bi as int] {
                Some(v) => {
                    assert(blob_inner(self.spec_packets()[bi as int]) == packet_views(v@));
                    assert(self.spec_remaining()[0] == packet_views(v@)[k as int]);
                },
                None => {
                    assert(false);
                },
            }
            assert forall|j: int| 0 <= j < self.decompressed@.len() implies cache_entry_ok(
                self.spec_packets()[j],
                #[trigger] self.decompressed@[j],
            ) by {
                assert(cache_entry_ok(old(self).spec_packets()[j], old(self).decompressed@[j]));
            }
            assert(self.has_keyframe_at(0)) by {
                assert(old(self).has_keyframe_at(0));
                let z = choose|i: int|
                    0 <= i < old(self).spec_keyframes().len() && (#[trigger] old(self).spec_keyframes()[i]).elapsed_frames == 0;
                assert(self.spec_keyframes()[z].elapsed_frames == 0);
            }
            assert(self.wf());
        }
        Ok(())
    }
}

/// Whether the keyframe index holds the exact frame, and the largest
/// indexed frame at or below it.
fn index_lookup(kfs: &Vec<KeyframeMetadata>, f: u64) -> (r: (bool, u64))
    ensures
        (r.0 <==> exists|j: int|
            0 <= j < kf_views(kfs@).len() && (#[trigger] kf_views(kfs@)[j]).elapsed_frames == f),
        r.1 <= f,
        r.1 == 0 || exists|j: int|
            0 <= j < kf_views(kfs@).len() && (#[trigger] kf_views(kfs@)[j]).elapsed_frames == r.1,
        forall|j: int|
            0 <= j < kf_views(kfs@).len() && (#[trigger] kf_views(kfs@)[j]).elapsed_frames <= f
                ==> kf_views(kfs@)[j].elapsed_frames <= r.1,
{
    let kn = kfs.len();
    let mut found = false;
    let mut best: u64 = 0;
    let mut ki: usize = 0;
    while ki < kn
        invariant
            kn == kfs@.len(),
            ki <= kn,
            found <==> exists|j: int|
                0 <= j < ki && (#[trigger] kf_views(kfs@)[j]).elapsed_frames == f,
            best <= f,
            best == 0 || exists|j: int|
                0 <= j < ki && (#[trigger] kf_views(kfs@)[j]).elapsed_frames == best,
            forall|j: int|
                0 <= j < ki && (#[trigger] kf_views(kfs@)[j]).elapsed_frames <= f ==> kf_views(
                    kfs@,
                )[j].elapsed_frames <= best,
        decreases kn - ki,
    {
        let frames = kfs[ki].elapsed_frames;
        proof {
            assert(kf_views(kfs@)[ki as int].elapsed_frames == frames);
        }
        if frames == f {
            found = true;
        }
        if frames <= f && frames >= best {
            best = frames;
        }
        ki = ki + 1;
    }
    (found, best)
}

/// The first top-level packet that carries a keyframe at exactly this
/// frame count: a bare keyframe (`true`) or a compressed blob whose
/// sidecar list holds one (`false`).
#[verifier::rlimit(100)]
#[verifier::spinoff_prover]
fn find_top_container(packets: &Vec<Packet>, f: u64) -> (r: Option<(usize, bool)>)
    ensures
        (r matches Some((ti, bare)) ==> spec_first_carrier(packet_views(packets@), f) == Some(
            (ti as int, bare),
        ) && ti < packets@.len() && packet_carries_keyframe(
            packet_views(packets@)[ti as int],
            f,
        ) && (bare <==> packet_views(packets@)[ti as int] is Keyframe)),
        (r is None ==> spec_first_carrier(packet_views(packets@), f) is None),
{
    let ghost views = packet_views(packets@);
    proof {
        assert(views.skip(0) =~= views);
    }
    let n = packets.len();
    let mut ti: usize = 0;
    while ti < n
        invariant
            n == packets@.len(),
            views == packet_views(packets@),
            ti <= n,
            spec_first_carrier(views, f) == (match spec_first_carrier(
                views.skip(ti as int),
                f,
            ) {
                Some((i, b)) => Some::<(int, bool)>((i + ti, b)),
                None => None::<(int, bool)>,
            }),
        decreases n - ti,
    {
        proof {
            assert(views.skip(ti as int)[0] == views[ti as int]);
            assert(views.skip(ti as int).drop_first() =~= views.skip(ti + 1));
        }
        let hit: Option<bool> = match &packets[ti] {
            Packet::Keyframe { metadata, .. } => {
                if metadata.elapsed_frames == f {
                    Some(true)
                } else {
                    None
                }
            },
            Packet::CompressedBlob { keyframes, .. } => {
                if kf_list_has_frame(keyframes, f) {
                    proof {
                        assert(views[ti as int]->CompressedBlob_keyframes == kf_views(
                            keyframes@,
                        ));
                    }
                    Some(false)
                } else {
                    proof {
                        assert(views[ti as int]->CompressedBlob_keyframes == kf_views(
                            keyframes@,
                        ));
                    }
                    None
                }
            },
            _ => None,
        };
        if let Some(bare) = hit {
            proof {
                assert(packet_carries_keyframe(views[ti as int], f));
                assert(spec_first_carrier(views.skip(ti as int), f) == Some(
                    (0int, views[ti as int] is Keyframe),
                ));
            }
            return Some((ti, bare));
        }
        proof {
            assert(!packet_carries_keyframe(views[ti as int], f));
        }
        ti = ti + 1;
    }
    proof {
        assert(views.skip(n as int) =~= Seq::<SpecPacket>::empty());
    }
    None
}

/// What a prefetch worker runs: decompress one blob's bytes and parse them
/// as a packet stream. Fails when the content is not exactly
/// `uncompressed_size` bytes or a packet fails to decode; succeeds on any
/// coherent blob's bytes.
pub fn decompress_blob(compressed: &[u8], uncompressed_size: u64) -> (r: Result<
    Vec<Packet>,
    ReplayFileReadError,
>)
    ensures
        (r matches Ok(v) ==> zstd_decompress_of(compressed@) matches Some(d) && d.len()
            == uncompressed_size && spec_parse_packet_stream(d, 0) == Ok::<
            Seq<SpecPacket>,
            ReadFailure,
        >(packet_views(v@))),
        (zstd_decompress_of(compressed@) matches Some(d) && d.len() == uncompressed_size
            && d.len() <= usize::MAX && spec_parse_packet_stream(d, 0) is Ok ==> r is Ok),
{
    if uncompressed_size > usize::MAX as u64 {
        return Err(
            ReplayFileReadError::Other {
                explanation: String::from_str(
                    "compressed blob decompresses beyond this architecture",
                ),
            },
        );
    }
    let d = match crate::util::decompress_data(compressed, uncompressed_size as usize) {
        Ok(d) => d,
        Err(e) => {
            return Err(ReplayFileReadError::Other { explanation: e });
        },
    };
    match crate::codec::read_packet_stream(d.as_slice(), 0, false) {
        Ok(ps) => Ok(ps),
        Err(_) => Err(
            ReplayFileReadError::BrokenPacket {
                explanation: String::from_str("failed to read packet"),
            },
        ),
    }
}

/// The position of the first keyframe packet at exactly this frame count.
fn find_keyframe_pos(v: &Vec<Packet>, f: u64) -> (r: Option<usize>)
    ensures
        (r matches Some(k) ==> k < v@.len() && (packet_views(v@)[
            k as int] matches SpecPacket::Keyframe { metadata, .. } && metadata.elapsed_frames
            == f)),
        (r is None ==> forall|m: int|
            0 <= m < packet_views(v@).len() ==> !((#[trigger] packet_views(v@)[
            m]) matches SpecPacket::Keyframe { metadata, .. } && metadata.elapsed_frames == f)),
{
    let n = v.len();
    let mut i: usize = 0;
    while i < n
        invariant
            n == v@.len(),
            i <= n,
            forall|m: int|
                0 <= m < i ==> !((#[trigger] packet_views(v@)[m]) matches SpecPacket::Keyframe {
                    metadata,
                    ..
                } && metadata.elapsed_frames == f),
        decreases n - i,
    {
        let hit = match &v[i] {
            Packet::Keyframe { metadata, .. } => metadata.elapsed_frames == f,
            _ => false,
        };
        proof {
            assert(packet_views(v@)[i as int] == v@[i as int]@);
        }
        if hit {
            return Some(i);
        }
        i = i + 1;
    }
    None
}

/// A cache entry is either empty or holds exactly the packet stream of the
/// compressed blob it belongs to.
pub open spec fn cache_entry_ok(p: SpecPacket, entry: Option<Vec<Packet>>) -> bool {
    match entry {
        Some(v) => {
            &&& p is CompressedBlob
            &&& zstd_decompress_of(p->CompressedBlob_compressed_data) matches Some(d)
                && spec_parse_packet_stream(d, 0) == Ok::<Seq<SpecPacket>, ReadFailure>(
                packet_views(v@),
            )
        },
        None => true,
    }
}

/// Whether a keyframe list holds an entry at exactly this frame count.
fn kf_list_has_frame(kfs: &Vec<KeyframeMetadata>, f: u64) -> (r: bool)
    ensures
        r <==> exists|m: int|
            0 <= m < kf_views(kfs@).len() && (#[trigger] kf_views(kfs@)[m]).elapsed_frames == f,
{
    let n = kfs.len();
    let mut i: usize = 0;
    while i < n
        invariant
            n == kfs@.len(),
            i <= n,
            forall|m: int| 0 <= m < i ==> (#[trigger] kf_views(kfs@)[m]).elapsed_frames != f,
        decreases n - i,
    {
        if kfs[i].elapsed_frames == f {
            proof {
                assert(kf_views(kfs@)[i as int].elapsed_frames == f);
            }
            return true;
        }
        i = i + 1;
    }
    false
}

/// A copy of a packet.
pub fn clone_packet(p: &Packet) -> (r: Packet)
    ensures
        r@ == p@,
{
    match p {
        Packet::NoOp => Packet::NoOp,
        Packet::ResetConsole => Packet::ResetConsole,
        Packet::RunFrames { frames } => Packet::RunFrames { frames: *frames },
        Packet::WriteMemory { address, data } => Packet::WriteMemory {
            address: *address,
            data: crate::codec::clone_bytes(data),
        },
        Packet::ChangeInput { data } => Packet::ChangeInput {
            data: crate::codec::clone_bytes(data),
        },
        Packet::ChangeSpeed { speed } => Packet::ChangeSpeed { speed: *speed },
        Packet::LoadSaveState { state } => Packet::LoadSaveState {
            state: crate::codec::clone_bytes(state),
        },
        Packet::Bookmark { metadata } => Packet::Bookmark { metadata: metadata.duplicate() },
        Packet::Keyframe { metadata, state } => Packet::Keyframe {
            metadata: metadata.duplicate(),
            state: crate::codec::clone_bytes(state),
        },
        Packet::CompressedBlob { keyframes, bookmarks, compressed_data, uncompressed_size } => {
            let mut kfs: Vec<KeyframeMetadata> = Vec::new();
            let mut i: usize = 0;
            while i < keyframes.len()
                invariant
                    i <= keyframes@.len(),
                    kf_views(kfs@) == kf_views(keyframes@.take(i as int)),
                decreases keyframes@.len() - i,
            {
                proof {
                    assert(kf_views(keyframes@.take(i + 1)) =~= kf_views(
                        keyframes@.take(i as int),
                    ).push(keyframes@[i as int]@));
                    assert(kf_views(kfs@).push(keyframes@[i as int]@) =~= kf_views(
                        keyframes@.take(i + 1),
                    ));
                }
                kfs.push(keyframes[i].duplicate());
                i = i + 1;
            }
            let mut bms: Vec<BookmarkMetadata> = Vec::new();
            let mut j: usize = 0;
            while j < bookmarks.len()
                invariant
                    j <= bookmarks@.len(),
                    bm_views(bms@) == bm_views(bookmarks@.take(j as int)),
                decreases bookmarks@.len() - j,
            {
                proof {
                    assert(bm_views(bookmarks@.take(j + 1)) =~= bm_views(
                        bookmarks@.take(j as int),
                    ).push(bookmarks@[j as int]@));
                    assert(bm_views(bms@).push(bookmarks@[j as int]@) =~= bm_views(
                        bookmarks@.take(j + 1),
                    ));
                }
                bms.push(bookmarks[j].duplicate());
                j = j + 1;
            }
            proof {
                assert(keyframes@.take(keyframes@.len() as int) =~= keyframes@);
                assert(bookmarks@.take(bookmarks@.len() as int) =~= bookmarks@);
            }
            let r = Packet::CompressedBlob {
                keyframes: kfs,
                bookmarks: bms,
                compressed_data: crate::codec::clone_bytes(compressed_data),
                uncompressed_size: *uncompressed_size,
            };
            assert(r@ =~= p@);
            r
        },
    }
}

/// A loaded replay always carries a keyframe indexed at elapsed-frame 0,
/// so seeking to frame 0 never reports a missing keyframe.
pub proof fn lemma_keyframe_zero_indexed(p: &ReplayFilePlayer)
    requires
        p.wf(),
    ensures
        p.has_keyframe_at(0),
{
}

/// `a + b`, clamped at the largest representable value.
fn saturating_add_u64(a: u64, b: u64) -> (r: u64)
    ensures
        a + b <= u64::MAX ==> r == a + b,
        a + b > u64::MAX ==> r == u64::MAX,
{
    if a > u64::MAX - b {
        u64::MAX
    } else {
        a + b
    }
}

} // verus!
