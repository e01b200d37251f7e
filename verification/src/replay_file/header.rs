//! Fixed-size replay file header.
//!
//! The header is exactly 2048 bytes: a start magic, a format version, the
//! console type, the emulator core name, the patch description, the ROM
//! identity (names and BLAKE3 checksums) and an end magic, with explicitly
//! reserved padding between fields. Parsing validates both magics and the
//! version before touching any other field.

use vstd::prelude::*;
use crate::codec::le_bytes;
use crate::codec::le_val;

verus! {

/// Signature start (all replay headers must start with this).
pub const SIGNATURE_START: [u8; 4] = [0x4E, 0x49, 0x44, 0x4F];

/// Signature end (all replay headers must end with this).
pub const SIGNATURE_END: [u8; 4] = [0x52, 0x49, 0x4E, 0x41];

/// Replay format version.
pub const REPLAY_VERSION: u32 = 2;

/// Total size of the header in bytes.
pub const REPLAY_HEADER_SIZE: usize = 2048;

/// BLAKE3 checksum.
pub type ReplayHeaderBlake3Hash = [u8; 32];

/// Console type to use for replays.
#[derive(Copy, Clone, PartialEq, Eq, Structural, Debug)]
pub enum ReplayConsoleType {
    /// Valid, but the user should probably not accept such a replay.
    Unknown,
    /// Game Boy.
    GameBoy,
    /// Super Game Boy 2.
    SuperGameBoy2,
    /// Game Boy Color.
    GameBoyColor,
    /// Game Boy Advance.
    GameBoyAdvance,
    /// Nintendo DS.
    NintendoDS,
}

impl Default for ReplayConsoleType {
    /// The default console type is `Unknown`.
    fn default() -> (r: Self)
        ensures
            r == ReplayConsoleType::Unknown,
    {
        ReplayConsoleType::Unknown
    }
}

impl ReplayConsoleType {
    /// The integer code this console type is stored as.
    pub open spec fn spec_code(self) -> u32 {
        match self {
            ReplayConsoleType::Unknown => 0,
            ReplayConsoleType::GameBoy => 1,
            ReplayConsoleType::SuperGameBoy2 => 2,
            ReplayConsoleType::GameBoyColor => 3,
            ReplayConsoleType::GameBoyAdvance => 4,
            ReplayConsoleType::NintendoDS => 5,
        }
    }

    /// The console type stored under an integer code, if the code is known.
    pub open spec fn spec_from_code(code: u32) -> Option<ReplayConsoleType> {
        if code == 0 {
            Some(ReplayConsoleType::Unknown)
        } else if code == 1 {
            Some(ReplayConsoleType::GameBoy)
        } else if code == 2 {
            Some(ReplayConsoleType::SuperGameBoy2)
        } else if code == 3 {
            Some(ReplayConsoleType::GameBoyColor)
        } else if code == 4 {
            Some(ReplayConsoleType::GameBoyAdvance)
        } else if code == 5 {
            Some(ReplayConsoleType::NintendoDS)
        } else {
            None
        }
    }

    /// Converts this console type to its integer code.
    pub fn as_code(self) -> (r: u32)
        ensures
            r == self.spec_code(),
    {
        match self {
            ReplayConsoleType::Unknown => 0,
            ReplayConsoleType::GameBoy => 1,
            ReplayConsoleType::SuperGameBoy2 => 2,
            ReplayConsoleType::GameBoyColor => 3,
            ReplayConsoleType::GameBoyAdvance => 4,
            ReplayConsoleType::NintendoDS => 5,
        }
    }

    /// Looks a console type up by its integer code.
    pub fn from_code(code: u32) -> (r: Option<ReplayConsoleType>)
        ensures
            r == ReplayConsoleType::spec_from_code(code),
    {
        if code == 0 {
            Some(ReplayConsoleType::Unknown)
        } else if code == 1 {
            Some(ReplayConsoleType::GameBoy)
        } else if code == 2 {
            Some(ReplayConsoleType::SuperGameBoy2)
        } else if code == 3 {
            Some(ReplayConsoleType::GameBoyColor)
        } else if code == 4 {
            Some(ReplayConsoleType::GameBoyAdvance)
        } else if code == 5 {
            Some(ReplayConsoleType::NintendoDS)
        } else {
            None
        }
    }

    /// Get the console name in human readable format.
    pub fn name(self) -> (r: &'static str)
        ensures
            self is Unknown ==> r@ == "Unknown"@,
            self is GameBoy ==> r@ == "Game Boy"@,
            self is SuperGameBoy2 ==> r@ == "Super Game Boy 2"@,
            self is GameBoyColor ==> r@ == "Game Boy Color"@,
            self is GameBoyAdvance ==> r@ == "Game Boy Advance"@,
            self is NintendoDS ==> r@ == "Nintendo DS"@,
    {
        match self {
            ReplayConsoleType::Unknown => "Unknown",
            ReplayConsoleType::GameBoy => "Game Boy",
            ReplayConsoleType::SuperGameBoy2 => "Super Game Boy 2",
            ReplayConsoleType::GameBoyColor => "Game Boy Color",
            ReplayConsoleType::GameBoyAdvance => "Game Boy Advance",
            ReplayConsoleType::NintendoDS => "Nintendo DS",
        }
    }
}

/// Determines what patch format to use.
#[derive(Copy, Clone, PartialEq, Eq, Structural, Debug)]
pub enum ReplayPatchFormat {
    /// The ROM is unpatched.
    Unpatched,
    /// The patch is in BPS format.
    BPS,
}

impl Default for ReplayPatchFormat {
    /// The default patch format is `Unpatched`.
    fn default() -> (r: Self)
        ensures
            r == ReplayPatchFormat::Unpatched,
    {
        ReplayPatchFormat::Unpatched
    }
}

impl ReplayPatchFormat {
    /// The integer code this patch format is stored as.
    pub open spec fn spec_code(self) -> u32 {
        match self {
            ReplayPatchFormat::Unpatched => 0,
            ReplayPatchFormat::BPS => 1,
        }
    }

    /// The patch format stored under an integer code, if the code is known.
    pub open spec fn spec_from_code(code: u32) -> Option<ReplayPatchFormat> {
        if code == 0 {
            Some(ReplayPatchFormat::Unpatched)
        } else if code == 1 {
            Some(ReplayPatchFormat::BPS)
        } else {
            None
        }
    }

    /// Converts this patch format to its integer code.
    pub fn as_code(self) -> (r: u32)
        ensures
            r == self.spec_code(),
    {
        match self {
            ReplayPatchFormat::Unpatched => 0,
            ReplayPatchFormat::BPS => 1,
        }
    }

    /// Looks a patch format up by its integer code.
    pub fn from_code(code: u32) -> (r: Option<ReplayPatchFormat>)
        ensures
            r == ReplayPatchFormat::spec_from_code(code),
    {
        if code == 0 {
            Some(ReplayPatchFormat::Unpatched)
        } else if code == 1 {
            Some(ReplayPatchFormat::BPS)
        } else {
            None
        }
    }
}

/// Metadata to generate a replay file.
#[derive(Clone, PartialEq, Debug)]
pub struct ReplayFileMetadata {
    /// Console type.
    pub console_type: ReplayConsoleType,
    /// Internal ROM name (max length is 255 bytes).
    pub rom_name: String,
    /// ROM filename (max length is 255 bytes).
    pub rom_filename: String,
    /// BLAKE3 hash of the ROM (after patch).
    pub rom_checksum: ReplayHeaderBlake3Hash,
    /// BLAKE3 hash of the BIOS.
    pub bios_checksum: ReplayHeaderBlake3Hash,
    /// Name of the emulator core, including version (max length is 255
    /// bytes).
    pub emulator_core_name: String,
    /// Patch format to use.
    pub patch_format: ReplayPatchFormat,
    /// BLAKE3 hash of the target ROM (before patch).
    pub patch_target_checksum: ReplayHeaderBlake3Hash,
}

/// Mathematical value of a [`ReplayFileMetadata`].
#[verifier::ext_equal]
pub struct SpecReplayFileMetadata {
    /// Console type.
    pub console_type: ReplayConsoleType,
    /// Internal ROM name.
    pub rom_name: Seq<char>,
    /// ROM filename.
    pub rom_filename: Seq<char>,
    /// BLAKE3 hash of the ROM.
    pub rom_checksum: Seq<u8>,
    /// BLAKE3 hash of the BIOS.
    pub bios_checksum: Seq<u8>,
    /// Name of the emulator core.
    pub emulator_core_name: Seq<char>,
    /// Patch format.
    pub patch_format: ReplayPatchFormat,
    /// BLAKE3 hash of the pre-patch target.
    pub patch_target_checksum: Seq<u8>,
}

impl View for ReplayFileMetadata {
    type V = SpecReplayFileMetadata;

    open spec fn view(&self) -> SpecReplayFileMetadata {
        SpecReplayFileMetadata {
            console_type: self.console_type,
            rom_name: self.rom_name@,
            rom_filename: self.rom_filename@,
            rom_checksum: self.rom_checksum@,
            bios_checksum: self.bios_checksum@,
            emulator_core_name: self.emulator_core_name@,
            patch_format: self.patch_format,
            patch_target_checksum: self.patch_target_checksum@,
        }
    }
}

/// A sequence of `n` zero bytes.
pub open spec fn zero_bytes(n: nat) -> Seq<u8> {
    Seq::new(n, |i: int| 0u8)
}

/// A string as stored in a fixed 256-byte header field: its UTF-8 bytes,
/// padded with zeros.
pub open spec fn spec_header_string(s: Seq<char>) -> Seq<u8>
    recommends
        vstd::utf8::encode_utf8(s).len() <= 255,
{
    vstd::utf8::encode_utf8(s) + zero_bytes((256 - vstd::utf8::encode_utf8(s).len()) as nat)
}

/// A header string is storable when its UTF-8 form is at most 255 bytes and
/// holds no zero byte.
pub open spec fn storable_header_string(s: Seq<char>) -> bool {
    &&& vstd::utf8::encode_utf8(s).len() <= 255
    &&& forall|i: int|
        0 <= i < vstd::utf8::encode_utf8(s).len() ==> #[trigger] vstd::utf8::encode_utf8(s)[i]
            != 0
}

impl SpecReplayFileMetadata {
    /// Metadata fits the header when every string field is storable and
    /// every checksum is 32 bytes.
    pub open spec fn wf(&self) -> bool {
        &&& storable_header_string(self.rom_name)
        &&& storable_header_string(self.rom_filename)
        &&& storable_header_string(self.emulator_core_name)
        &&& self.rom_checksum.len() == 32
        &&& self.bios_checksum.len() == 32
        &&& self.patch_target_checksum.len() == 32
    }
}

/// The 2048 header bytes that describe `m` with the given patch data
/// length.
pub open spec fn spec_header_bytes(m: SpecReplayFileMetadata, patch_data_length: u64) -> Seq<u8> {
    SIGNATURE_START@ + le_bytes(REPLAY_VERSION as nat, 4) + le_bytes(
        m.console_type.spec_code() as nat,
        4,
    ) + zero_bytes(4) + spec_header_string(m.emulator_core_name) + le_bytes(
        patch_data_length as nat,
        8,
    ) + le_bytes(m.patch_format.spec_code() as nat, 4) + zero_bytes(4) + m.patch_target_checksum
        + spec_header_string(m.rom_name) + spec_header_string(m.rom_filename) + m.rom_checksum
        + m.bios_checksum + zero_bytes(1148) + SIGNATURE_END@
}

/// The ways header parsing fails, in the order the checks run.
#[derive(Copy, Clone, PartialEq, Eq, Structural, Debug)]
pub enum HeaderIssue {
    /// The input is shorter than a header.
    TooShort,
    /// The start magic is wrong.
    BadSignatureStart,
    /// The end magic is wrong.
    BadSignatureEnd,
    /// The format version is not the one this engine writes.
    BadVersion,
    /// The console type code is not recognized.
    BadConsoleType,
    /// The patch format code is not recognized.
    BadPatchFormat,
    /// A string field has no terminator.
    StringTooLong,
    /// A string field is not UTF-8.
    StringNotUtf8,
}

/// Index of the first zero byte of `s`, or `-1` if there is none.
pub open spec fn first_zero(s: Seq<u8>) -> int
    decreases s.len(),
{
    if s.len() == 0 {
        -1
    } else if s[0] == 0 {
        0
    } else {
        let r = first_zero(s.drop_first());
        if r < 0 {
            -1
        } else {
            r + 1
        }
    }
}

proof fn lemma_first_zero(s: Seq<u8>)
    ensures
        first_zero(s) == -1 ==> forall|i: int| 0 <= i < s.len() ==> s[i] != 0,
        first_zero(s) >= 0 ==> 0 <= first_zero(s) < s.len() && s[first_zero(s)] == 0 && forall|
            i: int,
        | 0 <= i < first_zero(s) ==> s[i] != 0,
    decreases s.len(),
{
    if s.len() > 0 && s[0] != 0 {
        let rest = s.drop_first();
        lemma_first_zero(rest);
        let r = first_zero(rest);
        assert(forall|i: int| 0 < i < s.len() ==> s[i] == rest[i - 1]);
        if r < 0 {
            assert(first_zero(s) == -1);
        } else {
            assert(first_zero(s) == r + 1);
            assert(s[r + 1] == rest[r]);
        }
    }
}

/// The string stored in the 256-byte field at `off`: the bytes up to the
/// first zero, decoded as UTF-8.
pub open spec fn spec_parse_header_string(data: Seq<u8>, off: int) -> Result<
    Seq<char>,
    HeaderIssue,
>
    recommends
        0 <= off,
        off + 256 <= data.len(),
{
    let field = data.subrange(off, off + 256);
    let z = first_zero(field);
    if z < 0 {
        Err(HeaderIssue::StringTooLong)
    } else if !vstd::utf8::valid_utf8(field.take(z)) {
        Err(HeaderIssue::StringNotUtf8)
    } else {
        Ok(vstd::utf8::decode_utf8(field.take(z)))
    }
}

/// Result of parsing 2048 header bytes: the metadata and the patch data
/// length, or the first check that fails. Both magics and the version are
/// validated before any other field.
pub open spec fn spec_parse_header(data: Seq<u8>) -> Result<
    (SpecReplayFileMetadata, u64),
    HeaderIssue,
> {
    if data.len() < 2048 {
        Err(HeaderIssue::TooShort)
    } else if data.subrange(0, 4) != SIGNATURE_START@ {
        Err(HeaderIssue::BadSignatureStart)
    } else if data.subrange(2044, 2048) != SIGNATURE_END@ {
        Err(HeaderIssue::BadSignatureEnd)
    } else if le_val(data.subrange(4, 8)) != REPLAY_VERSION {
        Err(HeaderIssue::BadVersion)
    } else if ReplayConsoleType::spec_from_code(le_val(data.subrange(8, 12)) as u32) is None {
        Err(HeaderIssue::BadConsoleType)
    } else if ReplayPatchFormat::spec_from_code(le_val(data.subrange(280, 284)) as u32) is None {
        Err(HeaderIssue::BadPatchFormat)
    } else {
        match spec_parse_header_string(data, 16) {
            Err(k) => Err(k),
            Ok(emulator_core_name) => match spec_parse_header_string(data, 320) {
                Err(k) => Err(k),
                Ok(rom_name) => match spec_parse_header_string(data, 576) {
                    Err(k) => Err(k),
                    Ok(rom_filename) => Ok(
                        (
                            SpecReplayFileMetadata {
                                console_type: ReplayConsoleType::spec_from_code(
                                    le_val(data.subrange(8, 12)) as u32,
                                )->0,
                                rom_name,
                                rom_filename,
                                rom_checksum: data.subrange(832, 864),
                                bios_checksum: data.subrange(864, 896),
                                emulator_core_name,
                                patch_format: ReplayPatchFormat::spec_from_code(
                                    le_val(data.subrange(280, 284)) as u32,
                                )->0,
                                patch_target_checksum: data.subrange(288, 320),
                            },
                            le_val(data.subrange(272, 280)) as u64,
                        ),
                    ),
                },
            },
        }
    }
}

/// Appends `n` zero bytes.
fn push_zeros(out: &mut Vec<u8>, n: usize)
    ensures
        final(out)@ == old(out)@ + zero_bytes(n as nat),
{
    let mut i: usize = 0;
    while i < n
        invariant
            i <= n,
            out@ == old(out)@ + zero_bytes(i as nat),
        decreases n - i,
    {
        proof {
            assert(zero_bytes((i + 1) as nat) =~= zero_bytes(i as nat).push(0u8));
        }
        out.push(0u8);
        i = i + 1;
    }
}

/// Appends the four little-endian bytes of `v`.
fn push_u32_le(out: &mut Vec<u8>, v: u32)
    ensures
        final(out)@ == old(out)@ + le_bytes(v as nat, 4),
{
    out.push((v % 256) as u8);
    out.push(((v / 256) % 256) as u8);
    out.push(((v / 0x10000) % 256) as u8);
    out.push(((v / 0x1000000) % 256) as u8);
    proof {
        reveal_with_fuel(le_bytes, 5);
        assert(final(out)@ =~= old(out)@ + le_bytes(v as nat, 4));
    }
}

/// Appends the eight little-endian bytes of `v`.
fn push_u64_le(out: &mut Vec<u8>, v: u64)
    ensures
        final(out)@ == old(out)@ + le_bytes(v as nat, 8),
{
    let mut rem: u64 = v;
    let mut i: usize = 0;
    while i < 8
        invariant
            i <= 8,
            le_bytes(v as nat, 8).skip(i as int) == le_bytes(rem as nat, (8 - i) as nat),
            out@ == old(out)@ + le_bytes(v as nat, 8).take(i as int),
        decreases 8 - i,
    {
        proof {
            crate::codec::lemma_le_bytes_len(v as nat, 8);
            crate::codec::lemma_le_bytes_len(rem as nat / 256, (8 - i - 1) as nat);
            assert(le_bytes(rem as nat, (8 - i) as nat) == seq![(rem as nat % 256) as u8]
                + le_bytes(rem as nat / 256, (8 - i - 1) as nat));
            assert(le_bytes(v as nat, 8).skip(i as int)[0] == (rem as nat % 256) as u8);
            assert(le_bytes(v as nat, 8).take(i + 1) =~= le_bytes(v as nat, 8).take(i as int).push(
                (rem % 256) as u8,
            ));
            assert(le_bytes(v as nat, 8).skip(i + 1) =~= le_bytes(rem as nat, (8 - i) as nat)
                .drop_first());
        }
        out.push((rem % 256) as u8);
        rem = rem / 256;
        i = i + 1;
    }
    proof {
        crate::codec::lemma_le_bytes_len(v as nat, 8);
        assert(le_bytes(v as nat, 8).take(8) =~= le_bytes(v as nat, 8));
    }
}

/// Appends a 32-byte checksum.
fn push_hash(out: &mut Vec<u8>, hash: &ReplayHeaderBlake3Hash)
    ensures
        final(out)@ == old(out)@ + hash@,
{
    let mut i: usize = 0;
    while i < 32
        invariant
            i <= 32,
            out@ == old(out)@ + hash@.take(i as int),
        decreases 32 - i,
    {
        proof {
            assert(hash@.take(i + 1) =~= hash@.take(i as int).push(hash@[i as int]));
        }
        out.push(hash[i]);
        i = i + 1;
    }
    proof {
        assert(hash@.take(32) =~= hash@);
    }
}

/// Appends a string as a fixed 256-byte nul-padded field. Fails when the
/// UTF-8 form exceeds 255 bytes.
fn push_header_string(out: &mut Vec<u8>, s: &str) -> (r: Result<(), String>)
    ensures
        (r is Ok ==> vstd::utf8::encode_utf8(s@).len() <= 255 && final(out)@ == old(out)@
            + spec_header_string(s@)),
        (r is Err ==> vstd::utf8::encode_utf8(s@).len() > 255 && final(out)@ == old(out)@),
{
    let bytes = s.as_bytes();
    if bytes.len() > 255 {
        return Err(String::from_str("string field exceeds 255 bytes"));
    }
    out.extend_from_slice(bytes);
    push_zeros(out, 256 - bytes.len());
    proof {
        assert(final(out)@ =~= old(out)@ + spec_header_string(s@));
    }
    Ok(())
}

impl ReplayFileMetadata {
    /// Builds the 2048 raw header bytes for this metadata and the given
    /// patch data length. Fails when a string field exceeds 255 bytes.
    #[verifier::rlimit(60)]
    pub fn as_raw_header(&self, patch_data_length: u64) -> (r: Result<Vec<u8>, String>)
        ensures
            (r matches Ok(b) ==> b@ == spec_header_bytes(self@, patch_data_length) && b@.len()
                == 2048),
            (r is Err <==> !(vstd::utf8::encode_utf8(self@.emulator_core_name).len() <= 255
                && vstd::utf8::encode_utf8(self@.rom_name).len() <= 255 && vstd::utf8::encode_utf8(
                self@.rom_filename,
            ).len() <= 255)),
    {
        let mut out: Vec<u8> = Vec::new();
        out.push(0x4E);
        out.push(0x49);
        out.push(0x44);
        out.push(0x4F);
        proof {
            assert(out@ =~= SIGNATURE_START@);
        }
        push_u32_le(&mut out, REPLAY_VERSION);
        push_u32_le(&mut out, self.console_type.as_code());
        push_zeros(&mut out, 4);
        if push_header_string(&mut out, self.emulator_core_name.as_str()).is_err() {
            return Err(String::from_str("emulator_core_name exceeds 255 bytes"));
        }
        push_u64_le(&mut out, patch_data_length);
        push_u32_le(&mut out, self.patch_format.as_code());
        push_zeros(&mut out, 4);
        push_hash(&mut out, &self.patch_target_checksum);
        if push_header_string(&mut out, self.rom_name.as_str()).is_err() {
            return Err(String::from_str("rom_name exceeds 255 bytes"));
        }
        if push_header_string(&mut out, self.rom_filename.as_str()).is_err() {
            return Err(String::from_str("rom_filename exceeds 255 bytes"));
        }
        push_hash(&mut out, &self.rom_checksum);
        push_hash(&mut out, &self.bios_checksum);
        push_zeros(&mut out, 1148);
        out.push(0x52);
        out.push(0x49);
        out.push(0x4E);
        out.push(0x41);
        proof {
            crate::codec::lemma_le_bytes_len(REPLAY_VERSION as nat, 4);
            crate::codec::lemma_le_bytes_len(self.console_type.spec_code() as nat, 4);
            crate::codec::lemma_le_bytes_len(self.patch_format.spec_code() as nat, 4);
            crate::codec::lemma_le_bytes_len(patch_data_length as nat, 8);
            assert(out@ =~= spec_header_bytes(self@, patch_data_length));
        }
        Ok(out)
    }
}

/// Reads the 256-byte string field at `off`.
fn parse_header_string(data: &[u8], off: usize) -> (r: Result<String, HeaderIssue>)
    requires
        off + 256 <= data@.len(),
    ensures
        (r matches Ok(s) ==> spec_parse_header_string(data@, off as int) == Ok::<
            Seq<char>,
            HeaderIssue,
        >(s@)),
        (r matches Err(k) ==> spec_parse_header_string(data@, off as int) == Err::<
            Seq<char>,
            HeaderIssue,
        >(k)),
{
    let dlen: usize = data.len();
    let ghost field = data@.subrange(off as int, off + 256);
    let mut z: usize = 0;
    let mut found: bool = false;
    while z < 256 && !found
        invariant
            off + 256 <= data@.len(),
            dlen == data@.len(),
            field == data@.subrange(off as int, off + 256),
            z <= 256,
            found ==> z < 256 && field[z as int] == 0,
            forall|j: int| 0 <= j < z ==> field[j] != 0,
            !found || z < 256,
        decreases 256 - z + (if found { 0int } else { 1int }),
    {
        if data[off + z] == 0 {
            found = true;
        } else {
            z = z + 1;
        }
    }
    proof {
        lemma_first_zero(field);
    }
    if !found {
        return Err(HeaderIssue::StringTooLong);
    }
    let prefix = vstd::slice::slice_to_vec(&data[off..off + z]);
    proof {
        assert(prefix@ =~= field.take(z as int));
    }
    match crate::codec::bytes_to_string(prefix.as_slice()) {
        Some(s) => Ok(s),
        None => Err(HeaderIssue::StringNotUtf8),
    }
}

/// Reads the four little-endian bytes at `off` as a `u32`.
fn parse_u32_le(data: &[u8], off: usize) -> (r: u32)
    requires
        off + 4 <= data@.len(),
    ensures
        r == le_val(data@.subrange(off as int, off + 4)),
{
    let b0 = data[off] as u32;
    let b1 = data[off + 1] as u32;
    let b2 = data[off + 2] as u32;
    let b3 = data[off + 3] as u32;
    let r = b0 + 256 * b1 + 0x10000 * b2 + 0x1000000 * b3;
    proof {
        let s = data@.subrange(off as int, off + 4);
        let s1 = s.drop_first();
        let s2 = s1.drop_first();
        let s3 = s2.drop_first();
        let s4 = s3.drop_first();
        assert(s4.len() == 0);
        assert(le_val(s4) == 0);
        assert(s3[0] == data@[off + 3]);
        assert(s2[0] == data@[off + 2]);
        assert(s1[0] == data@[off + 1]);
        assert(s[0] == data@[off as int]);
        assert(le_val(s3) == data@[off + 3]);
        assert(le_val(s2) == data@[off + 2] + 256 * le_val(s3));
        assert(le_val(s1) == data@[off + 1] + 256 * le_val(s2));
        assert(le_val(s) == data@[off as int] + 256 * le_val(s1));
    }
    r
}

/// Reads the eight little-endian bytes at `off` as a `u64`.
fn parse_u64_le(data: &[u8], off: usize) -> (r: u64)
    requires
        off + 8 <= data@.len(),
    ensures
        r == le_val(data@.subrange(off as int, off + 8)),
{
    let dlen: usize = data.len();
    let lo = parse_u32_le(data, off) as u64;
    let hi = parse_u32_le(data, off + 4) as u64;
    let r = lo + 0x1_0000_0000 * hi;
    proof {
        let s = data@.subrange(off as int, off + 8);
        let a = data@.subrange(off as int, off + 4);
        let b = data@.subrange(off + 4, off + 8);
        crate::codec::lemma_le_val_concat(a, b);
        assert(a + b =~= s);
        crate::codec::lemma_le_val_bound(a);
        crate::codec::lemma_le_val_bound(b);
        crate::codec::lemma_pow256_vals();
    }
    r
}

/// Copies the 32 bytes at `off` into a checksum array.
fn parse_hash(data: &[u8], off: usize) -> (r: ReplayHeaderBlake3Hash)
    requires
        off + 32 <= data@.len(),
    ensures
        r@ == data@.subrange(off as int, off + 32),
{
    let dlen: usize = data.len();
    let mut out: [u8; 32] = [0; 32];
    let mut i: usize = 0;
    while i < 32
        invariant
            off + 32 <= data@.len(),
            dlen == data@.len(),
            i <= 32,
            out@.len() == 32,
            forall|j: int| 0 <= j < i ==> out@[j] == data@[off + j],
        decreases 32 - i,
    {
        out[i] = data[off + i];
        i = i + 1;
    }
    proof {
        assert(out@ =~= data@.subrange(off as int, off + 32));
    }
    out
}

/// Parses 2048 raw header bytes into replay metadata and the patch data
/// length, validating both magics and the version first.
pub fn parse_raw_header(data: &[u8]) -> (r: Result<(ReplayFileMetadata, u64), String>)
    ensures
        (r matches Ok((m, plen)) ==> spec_parse_header(data@) == Ok::<
            (SpecReplayFileMetadata, u64),
            HeaderIssue,
        >((m@, plen))),
        (r is Err ==> spec_parse_header(data@) is Err),
{
    if data.len() < 2048 {
        return Err(String::from_str("cannot read header"));
    }
    if data[0] != 0x4E || data[1] != 0x49 || data[2] != 0x44 || data[3] != 0x4F {
        proof {
            assert(data@.subrange(0, 4)[0] == data@[0]);
        }
        return Err(String::from_str("unrecognized signature_start"));
    }
    proof {
        assert(data@.subrange(0, 4) =~= SIGNATURE_START@);
    }
    if data[2044] != 0x52 || data[2045] != 0x49 || data[2046] != 0x4E || data[2047] != 0x41 {
        proof {
            assert(data@.subrange(2044, 2048)[0] == data@[2044]);
            assert(data@.subrange(2044, 2048)[1] == data@[2045]);
            assert(data@.subrange(2044, 2048)[2] == data@[2046]);
            assert(data@.subrange(2044, 2048)[3] == data@[2047]);
        }
        return Err(String::from_str("unrecognized signature_end"));
    }
    proof {
        assert(data@.subrange(2044, 2048) =~= SIGNATURE_END@);
    }
    let version = parse_u32_le(data, 4);
    if version != REPLAY_VERSION {
        return Err(String::from_str("unrecognized replay format version"));
    }
    let console_code = parse_u32_le(data, 8);
    proof {
        crate::codec::lemma_le_val_bound(data@.subrange(8, 12));
        crate::codec::lemma_pow256_vals();
    }
    let console_type = match ReplayConsoleType::from_code(console_code) {
        Some(t) => t,
        None => {
            return Err(unknown_code_message("unrecognized console_type 0x", console_code));
        },
    };
    let patch_code = parse_u32_le(data, 280);
    proof {
        crate::codec::lemma_le_val_bound(data@.subrange(280, 284));
        crate::codec::lemma_pow256_vals();
    }
    let patch_format = match ReplayPatchFormat::from_code(patch_code) {
        Some(t) => t,
        None => {
            return Err(unknown_code_message("unrecognized patch_format 0x", patch_code));
        },
    };
    let emulator_core_name = match parse_header_string(data, 16) {
        Ok(s) => s,
        Err(HeaderIssue::StringNotUtf8) => {
            return Err(String::from_str("emulator_core_name is non-UTF-8"));
        },
        Err(_) => {
            return Err(String::from_str("emulator_core_name length exceeds 255 bytes"));
        },
    };
    let rom_name = match parse_header_string(data, 320) {
        Ok(s) => s,
        Err(HeaderIssue::StringNotUtf8) => {
            return Err(String::from_str("rom_name is non-UTF-8"));
        },
        Err(_) => {
            return Err(String::from_str("rom_name length exceeds 255 bytes"));
        },
    };
    let rom_filename = match parse_header_string(data, 576) {
        Ok(s) => s,
        Err(HeaderIssue::StringNotUtf8) => {
            return Err(String::from_str("rom_filename is non-UTF-8"));
        },
        Err(_) => {
            return Err(String::from_str("rom_filename length exceeds 255 bytes"));
        },
    };
    let patch_data_length = parse_u64_le(data, 272);
    proof {
        crate::codec::lemma_le_val_bound(data@.subrange(272, 280));
        crate::codec::lemma_pow256_vals();
    }
    let m = ReplayFileMetadata {
        console_type,
        rom_name,
        rom_filename,
        rom_checksum: parse_hash(data, 832),
        bios_checksum: parse_hash(data, 864),
        emulator_core_name,
        patch_format,
        patch_target_checksum: parse_hash(data, 288),
    };
    proof {
        assert(spec_parse_header(data@) matches Ok((sm, sp)) && sm =~= m@ && sp
            == patch_data_length);
    }
    Ok((m, patch_data_length))
}

/// A diagnostic message carrying an unrecognized code as eight uppercase
/// hexadecimal digits, so callers can report the raw integer.
fn unknown_code_message(prefix: &str, code: u32) -> (r: String)
    ensures
        r@ == prefix@ + hex_of(
            seq![
                ((code / 0x1000000) % 256) as u8,
                ((code / 0x10000) % 256) as u8,
                ((code / 0x100) % 256) as u8,
                (code % 256) as u8,
            ],
        ),
{
    let code_bytes: [u8; 4] = [
        ((code / 0x1000000) % 256) as u8,
        ((code / 0x10000) % 256) as u8,
        ((code / 0x100) % 256) as u8,
        (code % 256) as u8,
    ];
    let hex = bytes_to_hex_ascii(&code_bytes);
    let mut out = String::from_str(prefix);
    out.append(hex.as_str());
    proof {
        assert(code_bytes@ =~= seq![
            ((code / 0x1000000) % 256) as u8,
            ((code / 0x10000) % 256) as u8,
            ((code / 0x100) % 256) as u8,
            (code % 256) as u8,
        ]);
    }
    out
}

/// The hexadecimal character for a value below 16: digits then uppercase
/// letters.
pub open spec fn hex_digit(n: u8) -> char
    recommends
        n < 16,
{
    if n <= 9 {
        (0x30 + n) as char
    } else {
        (0x41 + (n - 10)) as char
    }
}

/// The uppercase hexadecimal form of a byte sequence, two characters per
/// byte, high nibble first.
pub open spec fn hex_of(bytes: Seq<u8>) -> Seq<char> {
    Seq::new(2 * bytes.len(), |i: int| if i % 2 == 0 {
        hex_digit(bytes[i / 2] / 16)
    } else {
        hex_digit(bytes[i / 2] % 16)
    })
}

/// Convert the hash to an uppercase ASCII hexadecimal string for
/// displaying.
pub fn blake3_hash_to_ascii(hash: ReplayHeaderBlake3Hash) -> (r: String)
    ensures
        r@ == hex_of(hash@),
        r@.len() == 64,
{
    bytes_to_hex_ascii(&hash)
}

/// The uppercase hexadecimal form of a byte slice, two characters per
/// byte.
pub fn bytes_to_hex_ascii(bytes: &[u8]) -> (r: String)
    ensures
        r@ == hex_of(bytes@),
        r@.len() == 2 * bytes@.len(),
{
    let n = bytes.len();
    let mut ascii: Vec<u8> = Vec::new();
    let mut i: usize = 0;
    while i < n
        invariant
            n == bytes@.len(),
            i <= n,
            ascii@.len() == 2 * i,
            forall|j: int| 0 <= j < ascii@.len() ==> #[trigger] ascii@[j] == spec_ascii_hex(
                bytes@,
                j,
            ),
        decreases n - i,
    {
        let b = bytes[i];
        let high = b / 16;
        let low = b % 16;
        ascii.push(hex_digit_exec(high));
        ascii.push(hex_digit_exec(low));
        i = i + 1;
    }
    let ghost chars = hex_of(bytes@);
    proof {
        assert(vstd::utf8::is_ascii_chars(chars)) by {
            assert forall|i2: int| 0 <= i2 < chars.len() implies '\0' <= #[trigger] chars[i2]
                <= '\u{7f}' by {
                lemma_hex_digit_ascii(bytes@[i2 / 2] / 16);
                lemma_hex_digit_ascii(bytes@[i2 / 2] % 16);
            }
        }
        vstd::utf8::is_ascii_chars_encode_utf8(chars);
        assert(vstd::utf8::encode_utf8(chars) =~= ascii@) by {
            assert forall|j: int| 0 <= j < chars.len() implies vstd::utf8::encode_utf8(chars)[j]
                == ascii@[j] by {
                lemma_hex_digit_ascii(bytes@[j / 2] / 16);
                lemma_hex_digit_ascii(bytes@[j / 2] % 16);
            }
        }
        vstd::utf8::encode_utf8_valid_utf8(chars);
        vstd::utf8::encode_utf8_decode_utf8(chars);
    }
    match crate::codec::bytes_to_string(ascii.as_slice()) {
        Some(s) => s,
        None => {
            proof {
                assert(false);
            }
            String::from_str("")
        },
    }
}

/// The ASCII byte at position `j` of the hexadecimal form of `bytes`.
pub open spec fn spec_ascii_hex(bytes: Seq<u8>, j: int) -> u8 {
    if j % 2 == 0 {
        spec_hex_byte(bytes[j / 2] / 16)
    } else {
        spec_hex_byte(bytes[j / 2] % 16)
    }
}

/// The ASCII byte of the hexadecimal character for a value below 16.
pub open spec fn spec_hex_byte(n: u8) -> u8
    recommends
        n < 16,
{
    if n <= 9 {
        (0x30 + n) as u8
    } else {
        (0x41 + (n - 10)) as u8
    }
}

proof fn lemma_hex_digit_ascii(n: u8)
    requires
        n < 16,
    ensures
        '\0' <= hex_digit(n) <= '\u{7f}',
        hex_digit(n) as u8 == spec_hex_byte(n),
{
}

/// The hexadecimal ASCII byte for a value below 16.
fn hex_digit_exec(n: u8) -> (r: u8)
    requires
        n < 16,
    ensures
        r == spec_hex_byte(n),
{
    if n <= 9 {
        0x30 + n
    } else {
        0x41 + (n - 10)
    }
}

/// Building header bytes and parsing them back yields the metadata and
/// patch length unchanged, for any metadata that fits the header.
pub proof fn lemma_parse_spec_header_bytes(m: SpecReplayFileMetadata, patch_data_length: u64)
    requires
        m.wf(),
    ensures
        spec_parse_header(spec_header_bytes(m, patch_data_length)) == Ok::<
            (SpecReplayFileMetadata, u64),
            HeaderIssue,
        >((m, patch_data_length)),
{
    let data = spec_header_bytes(m, patch_data_length);
    crate::codec::lemma_pow256_vals();
    lemma_header_field_layout(m, patch_data_length);
    assert(data.subrange(0, 4) =~= SIGNATURE_START@);
    assert(data.subrange(2044, 2048) =~= SIGNATURE_END@);
    crate::codec::lemma_le_val_le_bytes(REPLAY_VERSION as nat, 4);
    crate::codec::lemma_le_val_le_bytes(m.console_type.spec_code() as nat, 4);
    crate::codec::lemma_le_val_le_bytes(m.patch_format.spec_code() as nat, 4);
    crate::codec::lemma_le_val_le_bytes(patch_data_length as nat, 8);
    crate::codec::lemma_pow256_vals();
    crate::codec::lemma_pow256_vals();
    lemma_parse_spec_header_string(m.emulator_core_name, data, 16);
    lemma_parse_spec_header_string(m.rom_name, data, 320);
    lemma_parse_spec_header_string(m.rom_filename, data, 576);
    assert(spec_parse_header(data) matches Ok((sm, sp)) && sm =~= m && sp == patch_data_length);
}

/// Where each field of the header bytes sits.
proof fn lemma_header_field_layout(m: SpecReplayFileMetadata, patch_data_length: u64)
    requires
        m.wf(),
    ensures
        spec_header_bytes(m, patch_data_length).len() == 2048,
        spec_header_bytes(m, patch_data_length).subrange(0, 4) == SIGNATURE_START@,
        spec_header_bytes(m, patch_data_length).subrange(4, 8) == le_bytes(
            REPLAY_VERSION as nat,
            4,
        ),
        spec_header_bytes(m, patch_data_length).subrange(8, 12) == le_bytes(
            m.console_type.spec_code() as nat,
            4,
        ),
        spec_header_bytes(m, patch_data_length).subrange(16, 272) == spec_header_string(
            m.emulator_core_name,
        ),
        spec_header_bytes(m, patch_data_length).subrange(272, 280) == le_bytes(
            patch_data_length as nat,
            8,
        ),
        spec_header_bytes(m, patch_data_length).subrange(280, 284) == le_bytes(
            m.patch_format.spec_code() as nat,
            4,
        ),
        spec_header_bytes(m, patch_data_length).subrange(288, 320) == m.patch_target_checksum,
        spec_header_bytes(m, patch_data_length).subrange(320, 576) == spec_header_string(
            m.rom_name,
        ),
        spec_header_bytes(m, patch_data_length).subrange(576, 832) == spec_header_string(
            m.rom_filename,
        ),
        spec_header_bytes(m, patch_data_length).subrange(832, 864) == m.rom_checksum,
        spec_header_bytes(m, patch_data_length).subrange(864, 896) == m.bios_checksum,
        spec_header_bytes(m, patch_data_length).subrange(2044, 2048) == SIGNATURE_END@,
{
    crate::codec::lemma_le_bytes_len(REPLAY_VERSION as nat, 4);
    crate::codec::lemma_le_bytes_len(m.console_type.spec_code() as nat, 4);
    crate::codec::lemma_le_bytes_len(m.patch_format.spec_code() as nat, 4);
    crate::codec::lemma_le_bytes_len(patch_data_length as nat, 8);
    let data = spec_header_bytes(m, patch_data_length);
    assert(data.subrange(0, 4) =~= SIGNATURE_START@);
    assert(data.subrange(4, 8) =~= le_bytes(REPLAY_VERSION as nat, 4));
    assert(data.subrange(8, 12) =~= le_bytes(m.console_type.spec_code() as nat, 4));
    assert(data.subrange(16, 272) =~= spec_header_string(m.emulator_core_name));
    assert(data.subrange(272, 280) =~= le_bytes(patch_data_length as nat, 8));
    assert(data.subrange(280, 284) =~= le_bytes(m.patch_format.spec_code() as nat, 4));
    assert(data.subrange(288, 320) =~= m.patch_target_checksum);
    assert(data.subrange(320, 576) =~= spec_header_string(m.rom_name));
    assert(data.subrange(576, 832) =~= spec_header_string(m.rom_filename));
    assert(data.subrange(832, 864) =~= m.rom_checksum);
    assert(data.subrange(864, 896) =~= m.bios_checksum);
    assert(data.subrange(2044, 2048) =~= SIGNATURE_END@);
}

/// A storable string laid down in a 256-byte field parses back to itself.
proof fn lemma_parse_spec_header_string(s: Seq<char>, data: Seq<u8>, off: int)
    requires
        storable_header_string(s),
        0 <= off,
        off + 256 <= data.len(),
        data.subrange(off, off + 256) == spec_header_string(s),
    ensures
        spec_parse_header_string(data, off) == Ok::<Seq<char>, HeaderIssue>(s),
{
    let enc = vstd::utf8::encode_utf8(s);
    let field = data.subrange(off, off + 256);
    lemma_first_zero(field);
    assert(field[enc.len() as int] == 0);
    assert(forall|i: int| 0 <= i < enc.len() ==> field[i] == enc[i]);
    if first_zero(field) < 0 {
        assert(field[enc.len() as int] != 0);
        assert(false);
    }
    let z = first_zero(field);
    if z < enc.len() {
        assert(field[z] == enc[z] && enc[z] != 0);
        assert(false);
    }
    if z > enc.len() {
        assert(field[enc.len() as int] != 0);
        assert(false);
    }
    assert(field.take(z) =~= enc);
    vstd::utf8::encode_utf8_valid_utf8(s);
    vstd::utf8::encode_utf8_decode_utf8(s);
}

} // verus!
