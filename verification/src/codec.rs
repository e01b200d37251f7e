//! Compact binary packet codec.
//!
//! Unsigned integers are written as a length byte (0 for the value zero,
//! otherwise 1 to 8) followed by that many little-endian bytes, the minimal
//! number needed. Byte buffers and strings are length-prefixed with that
//! integer encoding. Every packet starts with a discriminator byte.

use vstd::prelude::*;

verus! {

/// Integer type used throughout the replay stream.
pub type UnsignedInteger = u64;

/// Milliseconds timestamp, the canonical elapsed-time unit of the format.
pub type TimestampMillis = UnsignedInteger;

/// Encoded controller input bytes.
pub type InputBuffer = Vec<u8>;

/// Generic byte buffer carried by packets.
pub type ByteVec = Vec<u8>;

/// Value of a little-endian byte sequence.
pub open spec fn le_val(bytes: Seq<u8>) -> nat
    decreases bytes.len(),
{
    if bytes.len() == 0 {
        0
    } else {
        bytes[0] as nat + 256 * le_val(bytes.drop_first())
    }
}

/// The `n` little-endian bytes of `v` (low byte first).
pub open spec fn le_bytes(v: nat, n: nat) -> Seq<u8>
    decreases n,
{
    if n == 0 {
        Seq::empty()
    } else {
        seq![(v % 256) as u8] + le_bytes(v / 256, (n - 1) as nat)
    }
}

/// 256 to the power `n`.
pub open spec fn pow256(n: nat) -> nat
    decreases n,
{
    if n == 0 {
        1
    } else {
        256 * pow256((n - 1) as nat)
    }
}

/// Minimal number of little-endian bytes needed to hold `v`.
pub open spec fn uint_len(v: u64) -> nat {
    if v == 0 {
        0
    } else if v < 0x100 {
        1
    } else if v < 0x1_0000 {
        2
    } else if v < 0x100_0000 {
        3
    } else if v < 0x1_0000_0000 {
        4
    } else if v < 0x100_0000_0000 {
        5
    } else if v < 0x1_0000_0000_0000 {
        6
    } else if v < 0x100_0000_0000_0000 {
        7
    } else {
        8
    }
}

/// Encoding of an unsigned integer: a single zero byte for zero, otherwise a
/// length byte followed by the minimal little-endian bytes.
pub open spec fn spec_enc_uint(v: u64) -> Seq<u8> {
    if v == 0 {
        seq![0u8]
    } else {
        seq![uint_len(v) as u8] + le_bytes(v as nat, uint_len(v))
    }
}

pub proof fn lemma_le_bytes_len(v: nat, n: nat)
    ensures
        le_bytes(v, n).len() == n,
    decreases n,
{
    if n > 0 {
        lemma_le_bytes_len(v / 256, (n - 1) as nat);
    }
}

pub proof fn lemma_le_val_le_bytes(v: nat, n: nat)
    requires
        v < pow256(n),
    ensures
        le_val(le_bytes(v, n)) == v,
    decreases n,
{
    if n == 0 {
    } else {
        let rest = le_bytes(v / 256, (n - 1) as nat);
        assert(le_bytes(v, n) == seq![(v % 256) as u8] + rest);
        assert(le_bytes(v, n).drop_first() =~= rest);
        assert(v / 256 < pow256((n - 1) as nat)) by {
            assert(v < 256 * pow256((n - 1) as nat));
            assert(v / 256 < pow256((n - 1) as nat)) by (nonlinear_arith)
                requires
                    v < 256 * pow256((n - 1) as nat),
            ;
        }
        lemma_le_val_le_bytes(v / 256, (n - 1) as nat);
        assert(v == 256 * (v / 256) + v % 256) by (nonlinear_arith);
    }
}

/// Concatenating little-endian byte sequences adds their values with a
/// shift.
pub proof fn lemma_le_val_concat(a: Seq<u8>, b: Seq<u8>)
    ensures
        le_val(a + b) == le_val(a) + pow256(a.len()) * le_val(b),
    decreases a.len(),
{
    if a.len() == 0 {
        assert(a + b =~= b);
        assert(le_val(a) == 0);
        assert(pow256(0) == 1);
    } else {
        let a1 = a.drop_first();
        assert((a + b).drop_first() =~= a1 + b);
        lemma_le_val_concat(a1, b);
        assert((a + b).len() > 0);
        assert((a + b)[0] == a[0]);
        assert(le_val(a + b) == a[0] + 256 * le_val(a1 + b));
        assert(le_val(a1 + b) == le_val(a1) + pow256(a1.len()) * le_val(b));
        assert(256 * (le_val(a1) + pow256(a1.len()) * le_val(b)) == 256 * le_val(a1) + (256
            * pow256(a1.len())) * le_val(b)) by (nonlinear_arith);
        assert(pow256(a.len()) == 256 * pow256(a1.len()));
        assert(le_val(a) == a[0] + 256 * le_val(a1));
    }
}

/// Small powers of 256 written out.
pub proof fn lemma_pow256_vals()
    ensures
        pow256(1) == 0x100,
        pow256(2) == 0x1_0000,
        pow256(4) == 0x1_0000_0000,
        pow256(8) == 0x1_0000_0000_0000_0000,
{
    reveal_with_fuel(pow256, 9);
}

proof fn lemma_uint_len_bound(v: u64)
    ensures
        (v as nat) < pow256(uint_len(v)),
        uint_len(v) <= 8,
{
    reveal_with_fuel(pow256, 9);
}

/// Writes the compact encoding of `v` onto the end of `out`.
pub fn write_uint(v: u64, out: &mut Vec<u8>)
    ensures
        final(out)@ == old(out)@ + spec_enc_uint(v),
{
    if v == 0 {
        out.push(0u8);
        assert(out@ =~= old(out)@ + spec_enc_uint(v));
        return ;
    }
    let n: u8 = uint_len_exec(v);
    out.push(n);
    let ghost mid = out@;
    let mut rem: u64 = v;
    let mut i: u8 = 0;
    while i < n
        invariant
            i <= n,
            n as nat == uint_len(v),
            out@ == mid + le_bytes(v as nat, n as nat).take(i as int),
            le_bytes(v as nat, n as nat).skip(i as int) == le_bytes(rem as nat, (n - i) as nat),
        decreases n - i,
    {
        proof {
            lemma_le_bytes_len(v as nat, n as nat);
            lemma_le_bytes_len(rem as nat / 256, (n - i - 1) as nat);
            assert(le_bytes(rem as nat, (n - i) as nat) == seq![(rem as nat % 256) as u8]
                + le_bytes(rem as nat / 256, (n - i - 1) as nat));
            assert(le_bytes(v as nat, n as nat).skip(i as int)[0] == (rem as nat % 256) as u8);
            assert(le_bytes(v as nat, n as nat).take(i + 1) =~= le_bytes(v as nat, n as nat).take(
                i as int,
            ).push((rem % 256) as u8));
            assert(le_bytes(v as nat, n as nat).skip(i + 1) =~= le_bytes(
                rem as nat,
                (n - i) as nat,
            ).drop_first());
        }
        out.push((rem % 256) as u8);
        rem = rem / 256;
        i = i + 1;
    }
    proof {
        lemma_le_bytes_len(v as nat, n as nat);
        assert(le_bytes(v as nat, n as nat).take(n as int) =~= le_bytes(v as nat, n as nat));
        assert(out@ =~= old(out)@ + spec_enc_uint(v));
    }
}

/// The two ways a decode can fail, with no diagnostic text attached.
///
/// `NotEnoughData` means the input ended before the value did; `Invalid`
/// means the bytes are structurally wrong (bad length byte, bad UTF-8, an
/// unknown discriminator, or a zero where a nonzero value is mandatory).
#[derive(Copy, Clone, PartialEq, Eq, Structural, Debug)]
pub enum ReadFailure {
    NotEnoughData,
    Invalid,
}

/// Describes an error that occurs when failing to read a packet.
#[derive(Clone, PartialEq, Debug)]
pub enum PacketReadError {
    /// The input ended before the value did.
    NotEnoughData,
    /// The bytes are structurally invalid.
    ParseFail {
        /// Diagnostic text.
        explanation: String,
    },
}

impl PacketReadError {
    /// The failure kind this error reports.
    pub open spec fn kind(&self) -> ReadFailure {
        match self {
            PacketReadError::NotEnoughData => ReadFailure::NotEnoughData,
            PacketReadError::ParseFail { .. } => ReadFailure::Invalid,
        }
    }
}

/// Result of decoding an unsigned integer at `pos`: the value and the
/// position just past it.
pub open spec fn spec_read_uint(data: Seq<u8>, pos: int) -> Result<(u64, int), ReadFailure> {
    if !(0 <= pos < data.len()) {
        Err(ReadFailure::NotEnoughData)
    } else {
        let len = data[pos];
        if len == 0 {
            Ok((0, pos + 1))
        } else if len > 8 {
            Err(ReadFailure::Invalid)
        } else if pos + 1 + len > data.len() {
            Err(ReadFailure::NotEnoughData)
        } else {
            Ok((le_val(data.subrange(pos + 1, pos + 1 + len)) as u64, pos + 1 + len))
        }
    }
}

pub proof fn lemma_le_val_bound(bytes: Seq<u8>)
    ensures
        le_val(bytes) < pow256(bytes.len()),
    decreases bytes.len(),
{
    if bytes.len() > 0 {
        lemma_le_val_bound(bytes.drop_first());
    }
}

/// Reads a compact unsigned integer from `data` starting at `pos`.
pub fn read_uint(data: &[u8], pos: usize) -> (r: Result<(u64, usize), PacketReadError>)
    ensures
        (r matches Ok((v, end)) ==> spec_read_uint(data@, pos as int) == Ok::<(u64, int),
            ReadFailure,
        >((v, end as int)) && pos < end <= data@.len()),
        (r matches Err(e) ==> spec_read_uint(data@, pos as int) == Err::<(u64, int), ReadFailure>(
            e.kind(),
        )),
{
    if pos >= data.len() {
        return Err(PacketReadError::NotEnoughData);
    }
    let len_byte: u8 = data[pos];
    if len_byte == 0 {
        return Ok((0, pos + 1));
    }
    if len_byte > 8 {
        return Err(
            PacketReadError::ParseFail {
                explanation: String::from_str("invalid integer byte length"),
            },
        );
    }
    let len: usize = len_byte as usize;
    if data.len() - (pos + 1) < len {
        return Err(PacketReadError::NotEnoughData);
    }
    let ghost whole = data@.subrange(pos + 1, pos + 1 + len);
    let mut v: u64 = 0;
    let mut k: usize = len;
    while k > 0
        invariant
            k <= len,
            len <= 8,
            pos + 1 + len <= data@.len(),
            data@.len() <= usize::MAX,
            whole == data@.subrange(pos + 1, pos + 1 + len),
            v as nat == le_val(whole.skip(k as int)),
        decreases k,
    {
        proof {
            lemma_le_val_bound(whole.skip(k - 1));
            reveal_with_fuel(pow256, 9);
            assert(whole.skip(k - 1).drop_first() =~= whole.skip(k as int));
            assert(whole.skip(k - 1)[0] == data@[pos + 1 + (k - 1)]);
        }
        k = k - 1;
        v = v * 256 + data[pos + 1 + k] as u64;
    }
    proof {
        assert(whole.skip(0) =~= whole);
        lemma_le_val_bound(whole);
    }
    Ok((v, pos + 1 + len))
}

/// Decoding any byte sequence that holds the canonical encoding of `v` at
/// `pos` yields `v` back.
pub proof fn lemma_read_spec_enc_uint(v: u64, data: Seq<u8>, pos: int)
    requires
        0 <= pos,
        pos + spec_enc_uint(v).len() <= data.len(),
        data.subrange(pos, pos + spec_enc_uint(v).len()) == spec_enc_uint(v),
    ensures
        spec_read_uint(data, pos) == Ok::<(u64, int), ReadFailure>(
            (v, pos + spec_enc_uint(v).len()),
        ),
{
    lemma_uint_len_bound(v);
    lemma_le_bytes_len(v as nat, uint_len(v));
    let enc = spec_enc_uint(v);
    assert(data[pos] == enc[0]);
    if v == 0 {
    } else {
        let n = uint_len(v);
        assert(enc.len() == 1 + n);
        assert(data[pos] == n as u8);
        assert(data.subrange(pos + 1, pos + 1 + n) =~= le_bytes(v as nat, n)) by {
            assert forall|i: int| 0 <= i < n implies data.subrange(pos + 1, pos + 1 + n)[i]
                == le_bytes(v as nat, n)[i] by {
                assert(data.subrange(pos, pos + enc.len())[i + 1] == enc[i + 1]);
            }
        }
        lemma_le_val_le_bytes(v as nat, n);
    }
}

/// Encoding of a byte buffer: its length in the compact integer form, then
/// the raw bytes.
pub open spec fn spec_enc_bytes(b: Seq<u8>) -> Seq<u8>
    recommends
        b.len() <= u64::MAX,
{
    spec_enc_uint(b.len() as u64) + b
}

/// Result of decoding a length-prefixed byte buffer at `pos`.
pub open spec fn spec_read_bytes(data: Seq<u8>, pos: int) -> Result<(Seq<u8>, int), ReadFailure> {
    match spec_read_uint(data, pos) {
        Err(k) => Err(k),
        Ok((len, p1)) => if len > usize::MAX as u64 {
            Err(ReadFailure::Invalid)
        } else if p1 + len > data.len() {
            Err(ReadFailure::NotEnoughData)
        } else {
            Ok((data.subrange(p1, p1 + len), p1 + len))
        },
    }
}

/// Writes the length-prefixed encoding of `b` onto the end of `out`.
pub fn write_bytes_field(b: &[u8], out: &mut Vec<u8>)
    ensures
        final(out)@ == old(out)@ + spec_enc_bytes(b@),
{
    write_uint(b.len() as u64, out);
    out.extend_from_slice(b);
    assert(final(out)@ =~= old(out)@ + spec_enc_bytes(b@));
}

/// Reads a length-prefixed byte buffer from `data` starting at `pos`.
pub fn read_bytes_field(data: &[u8], pos: usize) -> (r: Result<
    (Vec<u8>, usize),
    PacketReadError,
>)
    ensures
        (r matches Ok((b, end)) ==> spec_read_bytes(data@, pos as int) == Ok::<(Seq<u8>, int),
            ReadFailure,
        >((b@, end as int)) && pos < end <= data@.len()),
        (r matches Err(e) ==> spec_read_bytes(data@, pos as int) == Err::<(Seq<u8>, int),
            ReadFailure,
        >(e.kind())),
{
    let (len64, p1) = match read_uint(data, pos) {
        Ok(v) => v,
        Err(e) => {
            return Err(e);
        },
    };
    if len64 > usize::MAX as u64 {
        return Err(
            PacketReadError::ParseFail {
                explanation: String::from_str("length exceeds this architecture"),
            },
        );
    }
    let len: usize = len64 as usize;
    if data.len() - p1 < len {
        return Err(PacketReadError::NotEnoughData);
    }
    let v = vstd::slice::slice_to_vec(&data[p1..p1 + len]);
    Ok((v, p1 + len))
}

/// Decoding any byte sequence that holds the canonical encoding of `b` at
/// `pos` yields `b` back.
pub proof fn lemma_read_spec_enc_bytes(b: Seq<u8>, data: Seq<u8>, pos: int)
    requires
        b.len() <= usize::MAX,
        0 <= pos,
        pos + spec_enc_bytes(b).len() <= data.len(),
        data.subrange(pos, pos + spec_enc_bytes(b).len()) == spec_enc_bytes(b),
    ensures
        spec_read_bytes(data, pos) == Ok::<(Seq<u8>, int), ReadFailure>(
            (b, pos + spec_enc_bytes(b).len()),
        ),
{
    let lenu = b.len() as u64;
    let il = spec_enc_uint(lenu).len() as int;
    let full = spec_enc_bytes(b).len() as int;
    assert(data.subrange(pos, pos + il) =~= spec_enc_uint(lenu)) by {
        assert forall|i: int| 0 <= i < il implies data.subrange(pos, pos + il)[i] == spec_enc_uint(
            lenu,
        )[i] by {
            assert(data.subrange(pos, pos + full)[i] == spec_enc_bytes(b)[i]);
        }
    }
    lemma_read_spec_enc_uint(lenu, data, pos);
    assert(data.subrange(pos + il, pos + il + b.len()) =~= b) by {
        assert forall|i: int| 0 <= i < b.len() implies data.subrange(
            pos + il,
            pos + il + b.len(),
        )[i] == b[i] by {
            assert(data.subrange(pos, pos + full)[il + i] == spec_enc_bytes(b)[il + i]);
        }
    }
}

/// Encoding of a string: the length-prefixed UTF-8 bytes of its characters.
pub open spec fn spec_enc_str(s: Seq<char>) -> Seq<u8> {
    spec_enc_bytes(vstd::utf8::encode_utf8(s))
}

/// Result of decoding a length-prefixed UTF-8 string at `pos`.
pub open spec fn spec_read_str(data: Seq<u8>, pos: int) -> Result<(Seq<char>, int), ReadFailure> {
    match spec_read_bytes(data, pos) {
        Err(k) => Err(k),
        Ok((b, end)) => if vstd::utf8::valid_utf8(b) {
            Ok((vstd::utf8::decode_utf8(b), end))
        } else {
            Err(ReadFailure::Invalid)
        },
    }
}

/// Relies on `core::str::from_utf8`: it succeeds exactly on valid UTF-8 and
/// decodes the bytes to the character sequence that vstd's `decode_utf8`
/// describes, which is the reading vstd itself gives to `str`.
#[verifier::external_body]
pub(crate) fn bytes_to_string(data: &[u8]) -> (r: Option<String>)
    ensures
        (r matches Some(s) ==> vstd::utf8::valid_utf8(data@) && s@ == vstd::utf8::decode_utf8(
            data@,
        )),
        (r is None ==> !vstd::utf8::valid_utf8(data@)),
{
    match core::str::from_utf8(data) {
        Ok(s) => Some(std::string::ToString::to_string(s)),
        Err(_) => None,
    }
}

/// Writes the length-prefixed encoding of `s` onto the end of `out`.
pub fn write_str_field(s: &str, out: &mut Vec<u8>)
    ensures
        final(out)@ == old(out)@ + spec_enc_str(s@),
{
    write_bytes_field(s.as_bytes(), out);
}

/// Reads a length-prefixed UTF-8 string from `data` starting at `pos`.
pub fn read_str_field(data: &[u8], pos: usize) -> (r: Result<(String, usize), PacketReadError>)
    ensures
        (r matches Ok((s, end)) ==> spec_read_str(data@, pos as int) == Ok::<(Seq<char>, int),
            ReadFailure,
        >((s@, end as int)) && pos < end <= data@.len()),
        (r matches Err(e) ==> spec_read_str(data@, pos as int) == Err::<(Seq<char>, int),
            ReadFailure,
        >(e.kind())),
{
    let (b, end) = match read_bytes_field(data, pos) {
        Ok(v) => v,
        Err(e) => {
            return Err(e);
        },
    };
    match bytes_to_string(b.as_slice()) {
        Some(s) => Ok((s, end)),
        None => Err(
            PacketReadError::ParseFail { explanation: String::from_str("invalid utf8 sequence") },
        ),
    }
}

/// Decoding any byte sequence that holds the canonical encoding of `s` at
/// `pos` yields `s` back.
pub proof fn lemma_read_spec_enc_str(s: Seq<char>, data: Seq<u8>, pos: int)
    requires
        vstd::utf8::encode_utf8(s).len() <= usize::MAX,
        0 <= pos,
        pos + spec_enc_str(s).len() <= data.len(),
        data.subrange(pos, pos + spec_enc_str(s).len()) == spec_enc_str(s),
    ensures
        spec_read_str(data, pos) == Ok::<(Seq<char>, int), ReadFailure>(
            (s, pos + spec_enc_str(s).len()),
        ),
{
    let b = vstd::utf8::encode_utf8(s);
    lemma_read_spec_enc_bytes(b, data, pos);
    vstd::utf8::encode_utf8_valid_utf8(s);
    vstd::utf8::encode_utf8_decode_utf8(s);
}

/// Encoding of a fixed two-byte little-endian integer.
pub open spec fn spec_enc_u16(v: u16) -> Seq<u8> {
    seq![(v % 256) as u8, (v / 256) as u8]
}

/// Result of decoding a fixed two-byte little-endian integer at `pos`.
pub open spec fn spec_read_u16(data: Seq<u8>, pos: int) -> Result<(u16, int), ReadFailure> {
    if 0 <= pos && pos + 2 <= data.len() {
        Ok(((data[pos] as u16 + 256 * (data[pos + 1] as u16)) as u16, pos + 2))
    } else {
        Err(ReadFailure::NotEnoughData)
    }
}

/// Writes the two little-endian bytes of `v` onto the end of `out`.
pub fn write_u16(v: u16, out: &mut Vec<u8>)
    ensures
        final(out)@ == old(out)@ + spec_enc_u16(v),
{
    out.push((v % 256) as u8);
    out.push((v / 256) as u8);
    assert(final(out)@ =~= old(out)@ + spec_enc_u16(v));
}

/// Reads a two-byte little-endian integer from `data` starting at `pos`.
pub fn read_u16(data: &[u8], pos: usize) -> (r: Result<(u16, usize), PacketReadError>)
    ensures
        (r matches Ok((v, end)) ==> spec_read_u16(data@, pos as int) == Ok::<(u16, int),
            ReadFailure,
        >((v, end as int)) && pos < end <= data@.len()),
        (r matches Err(e) ==> spec_read_u16(data@, pos as int) == Err::<(u16, int), ReadFailure>(
            e.kind(),
        )),
{
    if pos >= data.len() || data.len() - pos < 2 {
        return Err(PacketReadError::NotEnoughData);
    }
    let lo: u8 = data[pos];
    let hi: u8 = data[pos + 1];
    Ok((lo as u16 + 256 * (hi as u16), pos + 2))
}

/// Decoding any byte sequence that holds the two-byte encoding of `v` at
/// `pos` yields `v` back.
pub proof fn lemma_read_spec_enc_u16(v: u16, data: Seq<u8>, pos: int)
    requires
        0 <= pos,
        pos + 2 <= data.len(),
        data.subrange(pos, pos + 2) == spec_enc_u16(v),
    ensures
        spec_read_u16(data, pos) == Ok::<(u16, int), ReadFailure>((v, pos + 2)),
{
    assert(data[pos] == spec_enc_u16(v)[0]);
    assert(data[pos + 1] == spec_enc_u16(v)[1]);
    assert(v % 256 + 256 * (v / 256) == v);
}

/// Speed value that uses a fixed point number.
#[derive(Copy, Clone, PartialEq, Eq, Structural, Debug)]
pub struct Speed {
    /// A fixed point number that, when divided by 256, yields the speed
    /// multiplier. Zero is disallowed.
    pub speed_over_256: u16,
}

impl Speed {
    /// A speed value is valid when its fixed-point numerator is nonzero.
    pub open spec fn wf(&self) -> bool {
        self.speed_over_256 != 0
    }

    /// Normal speed, represented as 256/256.
    pub fn normal() -> (r: Speed)
        ensures
            r.speed_over_256 == 256,
    {
        Speed { speed_over_256: 256 }
    }
}

impl Default for Speed {
    /// The default speed is normal speed.
    fn default() -> (r: Self)
        ensures
            r.speed_over_256 == 256,
    {
        Speed { speed_over_256: 256 }
    }
}

/// Payload for keyframes, not including save state data.
#[derive(Clone, PartialEq, Debug)]
pub struct KeyframeMetadata {
    /// Current input.
    pub input: InputBuffer,
    /// Current speed.
    pub speed: Speed,
    /// Number of elapsed frames.
    pub elapsed_frames: UnsignedInteger,
    /// Total elapsed milliseconds.
    pub elapsed_millis: TimestampMillis,
}

/// Payload for bookmarks.
#[derive(Clone, PartialEq, Debug)]
pub struct BookmarkMetadata {
    /// Name of the bookmark.
    pub name: String,
    /// Number of elapsed frames.
    pub elapsed_frames: UnsignedInteger,
    /// Total elapsed milliseconds.
    pub elapsed_millis: TimestampMillis,
}

/// Mathematical value of a [`KeyframeMetadata`].
#[verifier::ext_equal]
pub struct SpecKeyframeMetadata {
    /// Current input bytes.
    pub input: Seq<u8>,
    /// Current speed numerator.
    pub speed: u16,
    /// Number of elapsed frames.
    pub elapsed_frames: u64,
    /// Total elapsed milliseconds.
    pub elapsed_millis: u64,
}

/// Mathematical value of a [`BookmarkMetadata`].
#[verifier::ext_equal]
pub struct SpecBookmarkMetadata {
    /// Name of the bookmark.
    pub name: Seq<char>,
    /// Number of elapsed frames.
    pub elapsed_frames: u64,
    /// Total elapsed milliseconds.
    pub elapsed_millis: u64,
}

impl KeyframeMetadata {
    /// A copy of this payload.
    pub fn duplicate(&self) -> (r: KeyframeMetadata)
        ensures
            r@ == self@,
    {
        KeyframeMetadata {
            input: clone_bytes(&self.input),
            speed: self.speed,
            elapsed_frames: self.elapsed_frames,
            elapsed_millis: self.elapsed_millis,
        }
    }
}

impl BookmarkMetadata {
    /// A copy of this payload.
    pub fn duplicate(&self) -> (r: BookmarkMetadata)
        ensures
            r@ == self@,
    {
        BookmarkMetadata {
            name: clone_string(&self.name),
            elapsed_frames: self.elapsed_frames,
            elapsed_millis: self.elapsed_millis,
        }
    }
}

/// A copy of a byte vector.
pub fn clone_bytes(v: &Vec<u8>) -> (r: Vec<u8>)
    ensures
        r@ == v@,
{
    vstd::slice::slice_to_vec(v.as_slice())
}

/// A copy of a string.
pub fn clone_string(s: &String) -> (r: String)
    ensures
        s@ == r@,
{
    s.clone()
}

impl View for KeyframeMetadata {
    type V = SpecKeyframeMetadata;

    open spec fn view(&self) -> SpecKeyframeMetadata {
        SpecKeyframeMetadata {
            input: self.input@,
            speed: self.speed.speed_over_256,
            elapsed_frames: self.elapsed_frames,
            elapsed_millis: self.elapsed_millis,
        }
    }
}

impl View for BookmarkMetadata {
    type V = SpecBookmarkMetadata;

    open spec fn view(&self) -> SpecBookmarkMetadata {
        SpecBookmarkMetadata {
            name: self.name@,
            elapsed_frames: self.elapsed_frames,
            elapsed_millis: self.elapsed_millis,
        }
    }
}

impl SpecKeyframeMetadata {
    /// A keyframe payload is valid when its speed is nonzero and its input
    /// buffer fits the length prefix.
    pub open spec fn wf(&self) -> bool {
        self.speed != 0 && self.input.len() <= usize::MAX
    }
}

impl SpecBookmarkMetadata {
    /// A bookmark payload is valid when its encoded name fits the length
    /// prefix.
    pub open spec fn wf(&self) -> bool {
        vstd::utf8::encode_utf8(self.name).len() <= usize::MAX
    }
}

/// Encoding of a keyframe payload: input buffer, speed, elapsed frames,
/// elapsed milliseconds.
pub open spec fn spec_enc_keyframe_metadata(m: SpecKeyframeMetadata) -> Seq<u8> {
    spec_enc_bytes(m.input) + spec_enc_u16(m.speed) + spec_enc_uint(m.elapsed_frames)
        + spec_enc_uint(m.elapsed_millis)
}

/// Encoding of a bookmark payload: name, elapsed frames, elapsed
/// milliseconds.
pub open spec fn spec_enc_bookmark_metadata(m: SpecBookmarkMetadata) -> Seq<u8> {
    spec_enc_str(m.name) + spec_enc_uint(m.elapsed_frames) + spec_enc_uint(m.elapsed_millis)
}

/// Result of decoding a keyframe payload at `pos`. A zero speed is invalid.
pub open spec fn spec_read_keyframe_metadata(data: Seq<u8>, pos: int) -> Result<
    (SpecKeyframeMetadata, int),
    ReadFailure,
> {
    match spec_read_bytes(data, pos) {
        Err(k) => Err(k),
        Ok((input, p1)) => match spec_read_u16(data, p1) {
            Err(k) => Err(k),
            Ok((speed, p2)) => if speed == 0 {
                Err(ReadFailure::Invalid)
            } else {
                match spec_read_uint(data, p2) {
                    Err(k) => Err(k),
                    Ok((frames, p3)) => match spec_read_uint(data, p3) {
                        Err(k) => Err(k),
                        Ok((millis, p4)) => Ok(
                            (
                                SpecKeyframeMetadata {
                                    input,
                                    speed,
                                    elapsed_frames: frames,
                                    elapsed_millis: millis,
                                },
                                p4,
                            ),
                        ),
                    },
                }
            },
        },
    }
}

/// Result of decoding a bookmark payload at `pos`.
pub open spec fn spec_read_bookmark_metadata(data: Seq<u8>, pos: int) -> Result<
    (SpecBookmarkMetadata, int),
    ReadFailure,
> {
    match spec_read_str(data, pos) {
        Err(k) => Err(k),
        Ok((name, p1)) => match spec_read_uint(data, p1) {
            Err(k) => Err(k),
            Ok((frames, p2)) => match spec_read_uint(data, p2) {
                Err(k) => Err(k),
                Ok((millis, p3)) => Ok(
                    (SpecBookmarkMetadata { name, elapsed_frames: frames, elapsed_millis: millis }, p3),
                ),
            },
        },
    }
}

impl KeyframeMetadata {
    /// Writes this payload's encoding onto the end of `out`.
    pub fn write_to(&self, out: &mut Vec<u8>)
        requires
            self@.wf(),
        ensures
            final(out)@ == old(out)@ + spec_enc_keyframe_metadata(self@),
    {
        write_bytes_field(self.input.as_slice(), out);
        write_u16(self.speed.speed_over_256, out);
        write_uint(self.elapsed_frames, out);
        write_uint(self.elapsed_millis, out);
        assert(final(out)@ =~= old(out)@ + spec_enc_keyframe_metadata(self@));
    }

    /// Reads a keyframe payload from `data` starting at `pos`.
    pub fn read_all(data: &[u8], pos: usize) -> (r: Result<
        (KeyframeMetadata, usize),
        PacketReadError,
    >)
        ensures
            (r matches Ok((m, end)) ==> spec_read_keyframe_metadata(data@, pos as int) == Ok::<
                (SpecKeyframeMetadata, int),
                ReadFailure,
            >((m@, end as int)) && pos < end <= data@.len() && m@.wf()),
            (r matches Err(e) ==> spec_read_keyframe_metadata(data@, pos as int) == Err::<
                (SpecKeyframeMetadata, int),
                ReadFailure,
            >(e.kind())),
    {
        let (input, p1) = match read_bytes_field(data, pos) {
            Ok(v) => v,
            Err(e) => {
                return Err(e);
            },
        };
        let (speed, p2) = match read_u16(data, p1) {
            Ok(v) => v,
            Err(e) => {
                return Err(e);
            },
        };
        if speed == 0 {
            return Err(
                PacketReadError::ParseFail {
                    explanation: String::from_str("read a zero u16 when a nonzero speed was expected"),
                },
            );
        }
        let (frames, p3) = match read_uint(data, p2) {
            Ok(v) => v,
            Err(e) => {
                return Err(e);
            },
        };
        let (millis, p4) = match read_uint(data, p3) {
            Ok(v) => v,
            Err(e) => {
                return Err(e);
            },
        };
        let m = KeyframeMetadata {
            input,
            speed: Speed { speed_over_256: speed },
            elapsed_frames: frames,
            elapsed_millis: millis,
        };
        assert(spec_read_keyframe_metadata(data@, pos as int) matches Ok((sm, e2)) && sm =~= m@
            && e2 == p4 as int);
        Ok((m, p4))
    }
}

impl BookmarkMetadata {
    /// Writes this payload's encoding onto the end of `out`.
    pub fn write_to(&self, out: &mut Vec<u8>)
        ensures
            final(out)@ == old(out)@ + spec_enc_bookmark_metadata(self@),
    {
        write_str_field(self.name.as_str(), out);
        write_uint(self.elapsed_frames, out);
        write_uint(self.elapsed_millis, out);
        assert(final(out)@ =~= old(out)@ + spec_enc_bookmark_metadata(self@));
    }

    /// Reads a bookmark payload from `data` starting at `pos`.
    pub fn read_all(data: &[u8], pos: usize) -> (r: Result<
        (BookmarkMetadata, usize),
        PacketReadError,
    >)
        ensures
            (r matches Ok((m, end)) ==> spec_read_bookmark_metadata(data@, pos as int) == Ok::<
                (SpecBookmarkMetadata, int),
                ReadFailure,
            >((m@, end as int)) && pos < end <= data@.len()),
            (r matches Err(e) ==> spec_read_bookmark_metadata(data@, pos as int) == Err::<
                (SpecBookmarkMetadata, int),
                ReadFailure,
            >(e.kind())),
    {
        let (name, p1) = match read_str_field(data, pos) {
            Ok(v) => v,
            Err(e) => {
                return Err(e);
            },
        };
        let (frames, p2) = match read_uint(data, p1) {
            Ok(v) => v,
            Err(e) => {
                return Err(e);
            },
        };
        let (millis, p3) = match read_uint(data, p2) {
            Ok(v) => v,
            Err(e) => {
                return Err(e);
            },
        };
        let m = BookmarkMetadata { name, elapsed_frames: frames, elapsed_millis: millis };
        assert(spec_read_bookmark_metadata(data@, pos as int) matches Ok((sm, e2)) && sm =~= m@
            && e2 == p3 as int);
        Ok((m, p3))
    }
}

/// Decoding any byte sequence that holds the canonical encoding of `m` at
/// `pos` yields `m` back.
pub proof fn lemma_read_spec_enc_keyframe_metadata(m: SpecKeyframeMetadata, data: Seq<u8>, pos: int)
    requires
        m.wf(),
        0 <= pos,
        pos + spec_enc_keyframe_metadata(m).len() <= data.len(),
        data.subrange(pos, pos + spec_enc_keyframe_metadata(m).len()) == spec_enc_keyframe_metadata(
            m,
        ),
    ensures
        spec_read_keyframe_metadata(data, pos) == Ok::<(SpecKeyframeMetadata, int), ReadFailure>(
            (m, pos + spec_enc_keyframe_metadata(m).len()),
        ),
{
    let e1 = spec_enc_bytes(m.input);
    let e2 = spec_enc_u16(m.speed);
    let e3 = spec_enc_uint(m.elapsed_frames);
    let e4 = spec_enc_uint(m.elapsed_millis);
    let enc = spec_enc_keyframe_metadata(m);
    let p1 = pos + e1.len();
    let p2 = p1 + e2.len();
    let p3 = p2 + e3.len();
    let p4 = p3 + e4.len();
    assert(enc.subrange(0, e1.len() as int) =~= e1);
    assert(enc.subrange(e1.len() as int, (e1.len() + e2.len()) as int) =~= e2);
    assert(enc.subrange((e1.len() + e2.len()) as int, (e1.len() + e2.len() + e3.len()) as int)
        =~= e3);
    assert(enc.subrange(
        (e1.len() + e2.len() + e3.len()) as int,
        (e1.len() + e2.len() + e3.len() + e4.len()) as int,
    ) =~= e4);
    lemma_subrange_of_prefix(data, pos, e1, enc);
    lemma_read_spec_enc_bytes(m.input, data, pos);
    lemma_subrange_of_middle(data, pos, e1.len() as int, e2, enc);
    lemma_read_spec_enc_u16(m.speed, data, p1);
    lemma_subrange_of_middle(data, pos, (e1.len() + e2.len()) as int, e3, enc);
    lemma_read_spec_enc_uint(m.elapsed_frames, data, p2);
    lemma_subrange_of_middle(data, pos, (e1.len() + e2.len() + e3.len()) as int, e4, enc);
    lemma_read_spec_enc_uint(m.elapsed_millis, data, p3);
    assert(spec_read_keyframe_metadata(data, pos) matches Ok((sm, e)) && sm =~= m && e == p4);
}

/// Decoding any byte sequence that holds the canonical encoding of `m` at
/// `pos` yields `m` back.
pub proof fn lemma_read_spec_enc_bookmark_metadata(m: SpecBookmarkMetadata, data: Seq<u8>, pos: int)
    requires
        m.wf(),
        0 <= pos,
        pos + spec_enc_bookmark_metadata(m).len() <= data.len(),
        data.subrange(pos, pos + spec_enc_bookmark_metadata(m).len()) == spec_enc_bookmark_metadata(
            m,
        ),
    ensures
        spec_read_bookmark_metadata(data, pos) == Ok::<(SpecBookmarkMetadata, int), ReadFailure>(
            (m, pos + spec_enc_bookmark_metadata(m).len()),
        ),
{
    let e1 = spec_enc_str(m.name);
    let e2 = spec_enc_uint(m.elapsed_frames);
    let e3 = spec_enc_uint(m.elapsed_millis);
    let enc = spec_enc_bookmark_metadata(m);
    let p1 = pos + e1.len();
    let p2 = p1 + e2.len();
    let p3 = p2 + e3.len();
    assert(enc.subrange(0, e1.len() as int) =~= e1);
    assert(enc.subrange(e1.len() as int, (e1.len() + e2.len()) as int) =~= e2);
    assert(enc.subrange((e1.len() + e2.len()) as int, (e1.len() + e2.len() + e3.len()) as int)
        =~= e3);
    lemma_subrange_of_prefix(data, pos, e1, enc);
    lemma_read_spec_enc_str(m.name, data, pos);
    lemma_subrange_of_middle(data, pos, e1.len() as int, e2, enc);
    lemma_read_spec_enc_uint(m.elapsed_frames, data, p1);
    lemma_subrange_of_middle(data, pos, (e1.len() + e2.len()) as int, e3, enc);
    lemma_read_spec_enc_uint(m.elapsed_millis, data, p2);
    assert(spec_read_bookmark_metadata(data, pos) matches Ok((sm, e)) && sm =~= m && e == p3);
}

/// If `whole` sits in `data` at `pos` and `part` is a prefix of `whole`,
/// then `part` sits in `data` at `pos`.
proof fn lemma_subrange_of_prefix(data: Seq<u8>, pos: int, part: Seq<u8>, whole: Seq<u8>)
    requires
        0 <= pos,
        pos + whole.len() <= data.len(),
        data.subrange(pos, pos + whole.len()) == whole,
        part.len() <= whole.len(),
        whole.subrange(0, part.len() as int) == part,
    ensures
        data.subrange(pos, pos + part.len()) == part,
{
    assert(data.subrange(pos, pos + part.len()) =~= part) by {
        assert forall|i: int| 0 <= i < part.len() implies data.subrange(pos, pos + part.len())[i]
            == part[i] by {
            assert(data.subrange(pos, pos + whole.len())[i] == whole[i]);
            assert(whole.subrange(0, part.len() as int)[i] == part[i]);
        }
    }
}

/// If `whole` sits in `data` at `pos` and `part` sits inside `whole` at
/// offset `off`, then `part` sits in `data` at `pos + off`.
proof fn lemma_subrange_of_middle(data: Seq<u8>, pos: int, off: int, part: Seq<u8>, whole: Seq<u8>)
    requires
        0 <= pos,
        0 <= off,
        off + part.len() <= whole.len(),
        pos + whole.len() <= data.len(),
        data.subrange(pos, pos + whole.len()) == whole,
        whole.subrange(off, off + part.len()) == part,
    ensures
        data.subrange(pos + off, pos + off + part.len()) == part,
{
    assert(data.subrange(pos + off, pos + off + part.len()) =~= part) by {
        assert forall|i: int| 0 <= i < part.len() implies data.subrange(
            pos + off,
            pos + off + part.len(),
        )[i] == part[i] by {
            assert(data.subrange(pos, pos + whole.len())[off + i] == whole[off + i]);
            assert(whole.subrange(off, off + part.len())[i] == part[i]);
        }
    }
}

/// Used in raw data to determine what kind of packet something is.
///
/// Discriminator bytes `0x01` to `0x7F` stand for `RunFrames` with the count
/// carried in the byte itself; `RunFrameN` names that whole range.
#[derive(Copy, Clone, PartialEq, Eq, Structural, Debug)]
pub enum PacketDiscriminator {
    /// Run 0 frames; a no-op.
    NoOp,
    /// Run N frames, N carried in the discriminator byte (`0x01..=0x7F`).
    RunFrameN,
    /// Run a variable number of frames.
    RunFrameVar,
    /// 8-bit input.
    ChangeInput8,
    /// 16-bit input.
    ChangeInput16,
    /// 32-bit input.
    ChangeInput32,
    /// Variable-length input.
    ChangeInputVar,
    /// Write a single byte.
    WriteMemory8,
    /// Write a 16-bit value.
    WriteMemory16,
    /// Write a 32-bit value.
    WriteMemory32,
    /// Write a variable amount of data.
    WriteMemoryVar,
    /// Describes a keyframe.
    Keyframe,
    /// Describes a bookmark.
    Bookmark,
    /// Change speed command.
    ChangeSpeed,
    /// Hard reset the console.
    ResetConsole,
    /// Load a save state.
    LoadSaveState,
    /// Compressed blob.
    CompressedBlob,
}

impl PacketDiscriminator {
    /// The wire byte of this discriminator; `RunFrameN` reports its lowest
    /// byte, `0x01`.
    pub fn byte(self) -> (r: u8)
        ensures
            r == self.spec_byte(),
    {
        match self {
            PacketDiscriminator::NoOp => 0x00,
            PacketDiscriminator::RunFrameN => 0x01,
            PacketDiscriminator::RunFrameVar => 0x80,
            PacketDiscriminator::ChangeInput8 => 0x81,
            PacketDiscriminator::ChangeInput16 => 0x82,
            PacketDiscriminator::ChangeInput32 => 0x83,
            PacketDiscriminator::ChangeInputVar => 0x84,
            PacketDiscriminator::WriteMemory8 => 0x85,
            PacketDiscriminator::WriteMemory16 => 0x86,
            PacketDiscriminator::WriteMemory32 => 0x87,
            PacketDiscriminator::WriteMemoryVar => 0x88,
            PacketDiscriminator::Keyframe => 0xF0,
            PacketDiscriminator::Bookmark => 0xF1,
            PacketDiscriminator::ChangeSpeed => 0xF2,
            PacketDiscriminator::ResetConsole => 0xF3,
            PacketDiscriminator::LoadSaveState => 0xF4,
            PacketDiscriminator::CompressedBlob => 0xFE,
        }
    }

    /// The wire byte of this discriminator.
    pub open spec fn spec_byte(self) -> u8 {
        match self {
            PacketDiscriminator::NoOp => 0x00,
            PacketDiscriminator::RunFrameN => 0x01,
            PacketDiscriminator::RunFrameVar => 0x80,
            PacketDiscriminator::ChangeInput8 => 0x81,
            PacketDiscriminator::ChangeInput16 => 0x82,
            PacketDiscriminator::ChangeInput32 => 0x83,
            PacketDiscriminator::ChangeInputVar => 0x84,
            PacketDiscriminator::WriteMemory8 => 0x85,
            PacketDiscriminator::WriteMemory16 => 0x86,
            PacketDiscriminator::WriteMemory32 => 0x87,
            PacketDiscriminator::WriteMemoryVar => 0x88,
            PacketDiscriminator::Keyframe => 0xF0,
            PacketDiscriminator::Bookmark => 0xF1,
            PacketDiscriminator::ChangeSpeed => 0xF2,
            PacketDiscriminator::ResetConsole => 0xF3,
            PacketDiscriminator::LoadSaveState => 0xF4,
            PacketDiscriminator::CompressedBlob => 0xFE,
        }
    }
}

/// Describes an individual packet.
#[derive(Clone, PartialEq, Debug)]
pub enum Packet {
    /// Do nothing.
    NoOp,
    /// Run the emulator for `frames` frames.
    RunFrames {
        /// Number of frames to run.
        frames: UnsignedInteger,
    },
    /// Write RAM at the given address; how the address is interpreted is
    /// emulator-specific.
    WriteMemory {
        /// Target address.
        address: UnsignedInteger,
        /// Bytes to write.
        data: ByteVec,
    },
    /// Set the current input.
    ChangeInput {
        /// Encoded input bytes.
        data: InputBuffer,
    },
    /// Set the current speed.
    ChangeSpeed {
        /// New speed.
        speed: Speed,
    },
    /// Hard reset the console.
    ResetConsole,
    /// Load a save state.
    LoadSaveState {
        /// Opaque serialized state.
        state: ByteVec,
    },
    /// Describes a named point in the replay.
    Bookmark {
        /// Bookmark payload.
        metadata: BookmarkMetadata,
    },
    /// Adds a keyframe so the replay can be scanned faster.
    Keyframe {
        /// Keyframe payload.
        metadata: KeyframeMetadata,
        /// Opaque serialized state.
        state: ByteVec,
    },
    /// Describes a compressed run of packets with its sidecar indices.
    CompressedBlob {
        /// Keyframes recorded inside this blob (summaries only).
        keyframes: Vec<KeyframeMetadata>,
        /// Bookmarks recorded inside this blob.
        bookmarks: Vec<BookmarkMetadata>,
        /// The compressed packet bytes.
        compressed_data: ByteVec,
        /// Length of the data once decompressed.
        uncompressed_size: UnsignedInteger,
    },
}

/// Mathematical value of a [`Packet`].
#[verifier::ext_equal]
pub enum SpecPacket {
    /// Do nothing.
    NoOp,
    /// Run the emulator for `frames` frames.
    RunFrames { frames: u64 },
    /// Write RAM at the given address.
    WriteMemory { address: u64, data: Seq<u8> },
    /// Set the current input.
    ChangeInput { data: Seq<u8> },
    /// Set the current speed.
    ChangeSpeed { speed: u16 },
    /// Hard reset the console.
    ResetConsole,
    /// Load a save state.
    LoadSaveState { state: Seq<u8> },
    /// Describes a named point in the replay.
    Bookmark { metadata: SpecBookmarkMetadata },
    /// Adds a keyframe.
    Keyframe { metadata: SpecKeyframeMetadata, state: Seq<u8> },
    /// Describes a compressed run of packets.
    CompressedBlob {
        keyframes: Seq<SpecKeyframeMetadata>,
        bookmarks: Seq<SpecBookmarkMetadata>,
        compressed_data: Seq<u8>,
        uncompressed_size: u64,
    },
}

impl View for Packet {
    type V = SpecPacket;

    open spec fn view(&self) -> SpecPacket {
        match self {
            Packet::NoOp => SpecPacket::NoOp,
            Packet::RunFrames { frames } => SpecPacket::RunFrames { frames: *frames },
            Packet::WriteMemory { address, data } => SpecPacket::WriteMemory {
                address: *address,
                data: data@,
            },
            Packet::ChangeInput { data } => SpecPacket::ChangeInput { data: data@ },
            Packet::ChangeSpeed { speed } => SpecPacket::ChangeSpeed {
                speed: speed.speed_over_256,
            },
            Packet::ResetConsole => SpecPacket::ResetConsole,
            Packet::LoadSaveState { state } => SpecPacket::LoadSaveState { state: state@ },
            Packet::Bookmark { metadata } => SpecPacket::Bookmark { metadata: metadata@ },
            Packet::Keyframe { metadata, state } => SpecPacket::Keyframe {
                metadata: metadata@,
                state: state@,
            },
            Packet::CompressedBlob { keyframes, bookmarks, compressed_data, uncompressed_size } => SpecPacket::CompressedBlob {
                keyframes: kf_views(keyframes@),
                bookmarks: bm_views(bookmarks@),
                compressed_data: compressed_data@,
                uncompressed_size: *uncompressed_size,
            },
        }
    }
}

/// The mathematical values of a sequence of keyframe payloads.
pub open spec fn kf_views(s: Seq<KeyframeMetadata>) -> Seq<SpecKeyframeMetadata> {
    s.map_values(|m: KeyframeMetadata| m@)
}

/// The mathematical values of a sequence of bookmark payloads.
pub open spec fn bm_views(s: Seq<BookmarkMetadata>) -> Seq<SpecBookmarkMetadata> {
    s.map_values(|m: BookmarkMetadata| m@)
}

impl SpecPacket {
    /// A packet is valid when mandatory-nonzero fields are nonzero and every
    /// buffer fits its length prefix. A `RunFrames` packet must run at least
    /// one frame; zero frames is written as `NoOp`.
    pub open spec fn wf(self) -> bool {
        match self {
            SpecPacket::NoOp => true,
            SpecPacket::RunFrames { frames } => frames >= 1,
            SpecPacket::WriteMemory { address, data } => data.len() <= usize::MAX,
            SpecPacket::ChangeInput { data } => data.len() <= usize::MAX,
            SpecPacket::ChangeSpeed { speed } => speed != 0,
            SpecPacket::ResetConsole => true,
            SpecPacket::LoadSaveState { state } => state.len() <= usize::MAX,
            SpecPacket::Bookmark { metadata } => metadata.wf(),
            SpecPacket::Keyframe { metadata, state } => metadata.wf() && state.len() <= usize::MAX,
            SpecPacket::CompressedBlob { keyframes, bookmarks, compressed_data, .. } => {
                &&& keyframes.len() <= usize::MAX
                &&& bookmarks.len() <= usize::MAX
                &&& compressed_data.len() <= usize::MAX
                &&& (forall|i: int| 0 <= i < keyframes.len() ==> #[trigger] keyframes[i].wf())
                &&& (forall|i: int| 0 <= i < bookmarks.len() ==> #[trigger] bookmarks[i].wf())
            },
        }
    }
}

/// Concatenated encodings of a list of keyframe payloads, without the count.
pub open spec fn spec_enc_kf_list(kfs: Seq<SpecKeyframeMetadata>) -> Seq<u8>
    decreases kfs.len(),
{
    if kfs.len() == 0 {
        Seq::empty()
    } else {
        spec_enc_keyframe_metadata(kfs.first()) + spec_enc_kf_list(kfs.drop_first())
    }
}

/// Concatenated encodings of a list of bookmark payloads, without the count.
pub open spec fn spec_enc_bm_list(bms: Seq<SpecBookmarkMetadata>) -> Seq<u8>
    decreases bms.len(),
{
    if bms.len() == 0 {
        Seq::empty()
    } else {
        spec_enc_bookmark_metadata(bms.first()) + spec_enc_bm_list(bms.drop_first())
    }
}

/// Encoding of a keyframe list: a count, then each payload in order.
pub open spec fn spec_enc_kf_seq(kfs: Seq<SpecKeyframeMetadata>) -> Seq<u8> {
    spec_enc_uint(kfs.len() as u64) + spec_enc_kf_list(kfs)
}

/// Encoding of a bookmark list: a count, then each payload in order.
pub open spec fn spec_enc_bm_seq(bms: Seq<SpecBookmarkMetadata>) -> Seq<u8> {
    spec_enc_uint(bms.len() as u64) + spec_enc_bm_list(bms)
}

/// Encoding of a packet: its discriminator byte, then its payload.
pub open spec fn spec_enc_packet(p: SpecPacket) -> Seq<u8> {
    match p {
        SpecPacket::NoOp => seq![0x00u8],
        SpecPacket::ResetConsole => seq![0xF3u8],
        SpecPacket::RunFrames { frames } => if frames < 0x80 {
            seq![frames as u8]
        } else {
            seq![0x80u8] + spec_enc_uint(frames)
        },
        SpecPacket::ChangeInput { data } => if data.len() == 1 {
            seq![0x81u8] + data
        } else if data.len() == 2 {
            seq![0x82u8] + data
        } else if data.len() == 4 {
            seq![0x83u8] + data
        } else {
            seq![0x84u8] + spec_enc_bytes(data)
        },
        SpecPacket::WriteMemory { address, data } => if data.len() == 1 {
            seq![0x85u8] + spec_enc_uint(address) + data
        } else if data.len() == 2 {
            seq![0x86u8] + spec_enc_uint(address) + data
        } else if data.len() == 4 {
            seq![0x87u8] + spec_enc_uint(address) + data
        } else {
            seq![0x88u8] + spec_enc_uint(address) + spec_enc_bytes(data)
        },
        SpecPacket::ChangeSpeed { speed } => seq![0xF2u8] + spec_enc_u16(speed),
        SpecPacket::LoadSaveState { state } => seq![0xF4u8] + spec_enc_bytes(state),
        SpecPacket::Bookmark { metadata } => seq![0xF1u8] + spec_enc_bookmark_metadata(metadata),
        SpecPacket::Keyframe { metadata, state } => seq![0xF0u8] + spec_enc_keyframe_metadata(
            metadata,
        ) + spec_enc_bytes(state),
        SpecPacket::CompressedBlob { keyframes, bookmarks, compressed_data, uncompressed_size } => {
            seq![0xFEu8] + spec_enc_kf_seq(keyframes) + spec_enc_bm_seq(bookmarks) + spec_enc_bytes(
                compressed_data,
            ) + spec_enc_uint(uncompressed_size)
        },
    }
}

proof fn lemma_enc_kf_list_push(kfs: Seq<SpecKeyframeMetadata>, m: SpecKeyframeMetadata)
    ensures
        spec_enc_kf_list(kfs.push(m)) == spec_enc_kf_list(kfs) + spec_enc_keyframe_metadata(m),
    decreases kfs.len(),
{
    if kfs.len() == 0 {
        assert(kfs.push(m).drop_first() =~= kfs);
        assert(kfs.push(m).first() == m);
        assert(spec_enc_kf_list(kfs.push(m)) =~= spec_enc_kf_list(kfs) + spec_enc_keyframe_metadata(
            m,
        ));
    } else {
        assert(kfs.push(m).drop_first() =~= kfs.drop_first().push(m));
        lemma_enc_kf_list_push(kfs.drop_first(), m);
        assert(spec_enc_kf_list(kfs.push(m)) =~= spec_enc_kf_list(kfs) + spec_enc_keyframe_metadata(
            m,
        ));
    }
}

proof fn lemma_enc_bm_list_push(bms: Seq<SpecBookmarkMetadata>, m: SpecBookmarkMetadata)
    ensures
        spec_enc_bm_list(bms.push(m)) == spec_enc_bm_list(bms) + spec_enc_bookmark_metadata(m),
    decreases bms.len(),
{
    if bms.len() == 0 {
        assert(bms.push(m).drop_first() =~= bms);
        assert(bms.push(m).first() == m);
        assert(spec_enc_bm_list(bms.push(m)) =~= spec_enc_bm_list(bms) + spec_enc_bookmark_metadata(
            m,
        ));
    } else {
        assert(bms.push(m).drop_first() =~= bms.drop_first().push(m));
        lemma_enc_bm_list_push(bms.drop_first(), m);
        assert(spec_enc_bm_list(bms.push(m)) =~= spec_enc_bm_list(bms) + spec_enc_bookmark_metadata(
            m,
        ));
    }
}

/// Writes a count-prefixed keyframe list onto the end of `out`.
fn write_kf_seq(kfs: &Vec<KeyframeMetadata>, out: &mut Vec<u8>)
    requires
        forall|i: int| 0 <= i < kfs@.len() ==> (#[trigger] kfs@[i])@.wf(),
    ensures
        final(out)@ == old(out)@ + spec_enc_kf_seq(kf_views(kfs@)),
{
    write_uint(kfs.len() as u64, out);
    let ghost mid = out@;
    let mut idx: usize = 0;
    while idx < kfs.len()
        invariant
            idx <= kfs@.len(),
            forall|i: int| 0 <= i < kfs@.len() ==> (#[trigger] kfs@[i])@.wf(),
            out@ == mid + spec_enc_kf_list(kf_views(kfs@).take(idx as int)),
        decreases kfs@.len() - idx,
    {
        proof {
            assert(kf_views(kfs@).take(idx + 1) =~= kf_views(kfs@).take(idx as int).push(
                kfs@[idx as int]@,
            ));
            lemma_enc_kf_list_push(kf_views(kfs@).take(idx as int), kfs@[idx as int]@);
        }
        kfs[idx].write_to(out);
        idx = idx + 1;
    }
    proof {
        assert(kf_views(kfs@).take(kfs@.len() as int) =~= kf_views(kfs@));
        assert(final(out)@ =~= old(out)@ + spec_enc_kf_seq(kf_views(kfs@)));
    }
}

/// Writes a count-prefixed bookmark list onto the end of `out`.
fn write_bm_seq(bms: &Vec<BookmarkMetadata>, out: &mut Vec<u8>)
    ensures
        final(out)@ == old(out)@ + spec_enc_bm_seq(bm_views(bms@)),
{
    write_uint(bms.len() as u64, out);
    let ghost mid = out@;
    let mut idx: usize = 0;
    while idx < bms.len()
        invariant
            idx <= bms@.len(),
            out@ == mid + spec_enc_bm_list(bm_views(bms@).take(idx as int)),
        decreases bms@.len() - idx,
    {
        proof {
            assert(bm_views(bms@).take(idx + 1) =~= bm_views(bms@).take(idx as int).push(
                bms@[idx as int]@,
            ));
            lemma_enc_bm_list_push(bm_views(bms@).take(idx as int), bms@[idx as int]@);
        }
        bms[idx].write_to(out);
        idx = idx + 1;
    }
    proof {
        assert(bm_views(bms@).take(bms@.len() as int) =~= bm_views(bms@));
        assert(final(out)@ =~= old(out)@ + spec_enc_bm_seq(bm_views(bms@)));
    }
}

impl Packet {
    /// Writes this packet's encoding onto the end of `out`.
    #[verifier::rlimit(50)]
    pub fn write_to(&self, out: &mut Vec<u8>)
        requires
            self@.wf(),
        ensures
            final(out)@ == old(out)@ + spec_enc_packet(self@),
    {
        match self {
            Packet::NoOp => {
                out.push(0x00u8);
                assert(final(out)@ =~= old(out)@ + spec_enc_packet(self@));
            },
            Packet::ResetConsole => {
                out.push(0xF3u8);
                assert(final(out)@ =~= old(out)@ + spec_enc_packet(self@));
            },
            Packet::RunFrames { frames } => {
                if *frames < 0x80 {
                    out.push(*frames as u8);
                    assert(final(out)@ =~= old(out)@ + spec_enc_packet(self@));
                } else {
                    out.push(0x80u8);
                    write_uint(*frames, out);
                    assert(final(out)@ =~= old(out)@ + spec_enc_packet(self@));
                }
            },
            Packet::ChangeInput { data } => {
                if data.len() == 1 {
                    out.push(0x81u8);
                    out.extend_from_slice(data.as_slice());
                } else if data.len() == 2 {
                    out.push(0x82u8);
                    out.extend_from_slice(data.as_slice());
                } else if data.len() == 4 {
                    out.push(0x83u8);
                    out.extend_from_slice(data.as_slice());
                } else {
                    out.push(0x84u8);
                    write_bytes_field(data.as_slice(), out);
                }
                assert(final(out)@ =~= old(out)@ + spec_enc_packet(self@));
            },
            Packet::WriteMemory { address, data } => {
                if data.len() == 1 {
                    out.push(0x85u8);
                    write_uint(*address, out);
                    out.extend_from_slice(data.as_slice());
                } else if data.len() == 2 {
                    out.push(0x86u8);
                    write_uint(*address, out);
                    out.extend_from_slice(data.as_slice());
                } else if data.len() == 4 {
                    out.push(0x87u8);
                    write_uint(*address, out);
                    out.extend_from_slice(data.as_slice());
                } else {
                    out.push(0x88u8);
                    write_uint(*address, out);
                    write_bytes_field(data.as_slice(), out);
                }
                assert(final(out)@ =~= old(out)@ + spec_enc_packet(self@));
            },
            Packet::ChangeSpeed { speed } => {
                out.push(0xF2u8);
                write_u16(speed.speed_over_256, out);
                assert(final(out)@ =~= old(out)@ + spec_enc_packet(self@));
            },
            Packet::LoadSaveState { state } => {
                out.push(0xF4u8);
                write_bytes_field(state.as_slice(), out);
                assert(final(out)@ =~= old(out)@ + spec_enc_packet(self@));
            },
            Packet::Bookmark { metadata } => {
                out.push(0xF1u8);
                metadata.write_to(out);
                assert(final(out)@ =~= old(out)@ + spec_enc_packet(self@));
            },
            Packet::Keyframe { metadata, state } => {
                out.push(0xF0u8);
                metadata.write_to(out);
                write_bytes_field(state.as_slice(), out);
                assert(final(out)@ =~= old(out)@ + spec_enc_packet(self@));
            },
            Packet::CompressedBlob { keyframes, bookmarks, compressed_data, uncompressed_size } => {
                proof {
                    assert forall|i: int|
                        0 <= i < keyframes@.len() implies (#[trigger] keyframes@[i])@.wf() by {
                        assert(kf_views(keyframes@)[i].wf());
                    }
                }
                out.push(0xFEu8);
                write_kf_seq(keyframes, out);
                write_bm_seq(bookmarks, out);
                write_bytes_field(compressed_data.as_slice(), out);
                write_uint(*uncompressed_size, out);
                assert(final(out)@ =~= old(out)@ + spec_enc_packet(self@));
            },
        }
    }
}

/// Result of reading `n` raw bytes at `pos`.
pub open spec fn spec_read_raw(data: Seq<u8>, pos: int, n: int) -> Result<
    (Seq<u8>, int),
    ReadFailure,
> {
    if 0 <= pos && pos + n <= data.len() {
        Ok((data.subrange(pos, pos + n), pos + n))
    } else {
        Err(ReadFailure::NotEnoughData)
    }
}

/// Result of decoding exactly `count` keyframe payloads one after another,
/// starting at `pos`.
pub open spec fn spec_read_kf_list(data: Seq<u8>, pos: int, count: nat) -> Result<
    (Seq<SpecKeyframeMetadata>, int),
    ReadFailure,
>
    decreases count,
{
    if count == 0 {
        Ok((Seq::empty(), pos))
    } else {
        match spec_read_keyframe_metadata(data, pos) {
            Err(k) => Err(k),
            Ok((m, p1)) => match spec_read_kf_list(data, p1, (count - 1) as nat) {
                Err(k) => Err(k),
                Ok((rest, end)) => Ok((seq![m] + rest, end)),
            },
        }
    }
}

/// Result of decoding exactly `count` bookmark payloads one after another,
/// starting at `pos`.
pub open spec fn spec_read_bm_list(data: Seq<u8>, pos: int, count: nat) -> Result<
    (Seq<SpecBookmarkMetadata>, int),
    ReadFailure,
>
    decreases count,
{
    if count == 0 {
        Ok((Seq::empty(), pos))
    } else {
        match spec_read_bookmark_metadata(data, pos) {
            Err(k) => Err(k),
            Ok((m, p1)) => match spec_read_bm_list(data, p1, (count - 1) as nat) {
                Err(k) => Err(k),
                Ok((rest, end)) => Ok((seq![m] + rest, end)),
            },
        }
    }
}

/// Result of decoding a count-prefixed keyframe list at `pos`.
pub open spec fn spec_read_kf_seq(data: Seq<u8>, pos: int) -> Result<
    (Seq<SpecKeyframeMetadata>, int),
    ReadFailure,
> {
    match spec_read_uint(data, pos) {
        Err(k) => Err(k),
        Ok((count, p1)) => if count > usize::MAX as u64 {
            Err(ReadFailure::Invalid)
        } else {
            spec_read_kf_list(data, p1, count as nat)
        },
    }
}

/// Result of decoding a count-prefixed bookmark list at `pos`.
pub open spec fn spec_read_bm_seq(data: Seq<u8>, pos: int) -> Result<
    (Seq<SpecBookmarkMetadata>, int),
    ReadFailure,
> {
    match spec_read_uint(data, pos) {
        Err(k) => Err(k),
        Ok((count, p1)) => if count > usize::MAX as u64 {
            Err(ReadFailure::Invalid)
        } else {
            spec_read_bm_list(data, p1, count as nat)
        },
    }
}

/// Result of decoding one packet at `pos`: the packet and the position just
/// past it. This is the decode that `Packet::read_all` implements exactly.
pub open spec fn spec_read_packet(data: Seq<u8>, pos: int) -> Result<
    (SpecPacket, int),
    ReadFailure,
> {
    if !(0 <= pos < data.len()) {
        Err(ReadFailure::NotEnoughData)
    } else {
        let d = data[pos];
        let p1 = pos + 1;
        if d == 0x00 {
            Ok((SpecPacket::NoOp, p1))
        } else if d == 0xF3 {
            Ok((SpecPacket::ResetConsole, p1))
        } else if d < 0x80 {
            Ok((SpecPacket::RunFrames { frames: d as u64 }, p1))
        } else if d == 0x80 {
            match spec_read_uint(data, p1) {
                Err(k) => Err(k),
                Ok((frames, end)) => Ok((SpecPacket::RunFrames { frames }, end)),
            }
        } else if d == 0x81 || d == 0x82 || d == 0x83 {
            let n = if d == 0x81 { 1int } else if d == 0x82 { 2int } else { 4int };
            match spec_read_raw(data, p1, n) {
                Err(k) => Err(k),
                Ok((bytes, end)) => Ok((SpecPacket::ChangeInput { data: bytes }, end)),
            }
        } else if d == 0x84 {
            match spec_read_bytes(data, p1) {
                Err(k) => Err(k),
                Ok((bytes, end)) => Ok((SpecPacket::ChangeInput { data: bytes }, end)),
            }
        } else if d == 0x85 || d == 0x86 || d == 0x87 {
            let n = if d == 0x85 { 1int } else if d == 0x86 { 2int } else { 4int };
            match spec_read_uint(data, p1) {
                Err(k) => Err(k),
                Ok((address, p2)) => match spec_read_raw(data, p2, n) {
                    Err(k) => Err(k),
                    Ok((bytes, end)) => Ok((SpecPacket::WriteMemory { address, data: bytes }, end)),
                },
            }
        } else if d == 0x88 {
            match spec_read_uint(data, p1) {
                Err(k) => Err(k),
                Ok((address, p2)) => match spec_read_bytes(data, p2) {
                    Err(k) => Err(k),
                    Ok((bytes, end)) => Ok((SpecPacket::WriteMemory { address, data: bytes }, end)),
                },
            }
        } else if d == 0xF0 {
            match spec_read_keyframe_metadata(data, p1) {
                Err(k) => Err(k),
                Ok((metadata, p2)) => match spec_read_bytes(data, p2) {
                    Err(k) => Err(k),
                    Ok((state, end)) => Ok((SpecPacket::Keyframe { metadata, state }, end)),
                },
            }
        } else if d == 0xF1 {
            match spec_read_bookmark_metadata(data, p1) {
                Err(k) => Err(k),
                Ok((metadata, end)) => Ok((SpecPacket::Bookmark { metadata }, end)),
            }
        } else if d == 0xF2 {
            match spec_read_u16(data, p1) {
                Err(k) => Err(k),
                Ok((speed, end)) => if speed == 0 {
                    Err(ReadFailure::Invalid)
                } else {
                    Ok((SpecPacket::ChangeSpeed { speed }, end))
                },
            }
        } else if d == 0xF4 {
            match spec_read_bytes(data, p1) {
                Err(k) => Err(k),
                Ok((state, end)) => Ok((SpecPacket::LoadSaveState { state }, end)),
            }
        } else if d == 0xFE {
            match spec_read_kf_seq(data, p1) {
                Err(k) => Err(k),
                Ok((keyframes, p2)) => match spec_read_bm_seq(data, p2) {
                    Err(k) => Err(k),
                    Ok((bookmarks, p3)) => match spec_read_bytes(data, p3) {
                        Err(k) => Err(k),
                        Ok((compressed_data, p4)) => match spec_read_uint(data, p4) {
                            Err(k) => Err(k),
                            Ok((uncompressed_size, end)) => Ok(
                                (
                                    SpecPacket::CompressedBlob {
                                        keyframes,
                                        bookmarks,
                                        compressed_data,
                                        uncompressed_size,
                                    },
                                    end,
                                ),
                            ),
                        },
                    },
                },
            }
        } else {
            Err(ReadFailure::Invalid)
        }
    }
}

/// Reads a count-prefixed keyframe list from `data` starting at `pos`.
fn read_kf_seq(data: &[u8], pos: usize) -> (r: Result<
    (Vec<KeyframeMetadata>, usize),
    PacketReadError,
>)
    ensures
        (r matches Ok((kfs, end)) ==> spec_read_kf_seq(data@, pos as int) == Ok::<
            (Seq<SpecKeyframeMetadata>, int),
            ReadFailure,
        >((kf_views(kfs@), end as int)) && pos < end <= data@.len() && (forall|i: int|
            0 <= i < kfs@.len() ==> (#[trigger] kfs@[i])@.wf())),
        (r matches Err(e) ==> spec_read_kf_seq(data@, pos as int) == Err::<
            (Seq<SpecKeyframeMetadata>, int),
            ReadFailure,
        >(e.kind())),
{
    let (count64, p1) = match read_uint(data, pos) {
        Ok(v) => v,
        Err(e) => {
            return Err(e);
        },
    };
    if count64 > usize::MAX as u64 {
        return Err(
            PacketReadError::ParseFail {
                explanation: String::from_str("list count exceeds this architecture"),
            },
        );
    }
    let count: usize = count64 as usize;
    let mut kfs: Vec<KeyframeMetadata> = Vec::new();
    let mut cur: usize = p1;
    let mut i: usize = 0;
    while i < count
        invariant
            i <= count,
            pos < cur <= data@.len(),
            kfs@.len() == i,
            spec_read_uint(data@, pos as int) == Ok::<(u64, int), ReadFailure>(
                (count as u64, p1 as int),
            ),
            count as u64 <= usize::MAX as u64,
            forall|j: int| 0 <= j < kfs@.len() ==> (#[trigger] kfs@[j])@.wf(),
            spec_read_kf_list(data@, p1 as int, count as nat) == (match spec_read_kf_list(
                data@,
                cur as int,
                (count - i) as nat,
            ) {
                Ok((s, e)) => Ok::<(Seq<SpecKeyframeMetadata>, int), ReadFailure>(
                    (kf_views(kfs@) + s, e),
                ),
                Err(k) => Err(k),
            }),
        decreases count - i,
    {
        let (m, next) = match KeyframeMetadata::read_all(data, cur) {
            Ok(v) => v,
            Err(e) => {
                proof {
                    assert(spec_read_kf_list(data@, cur as int, (count - i) as nat) == Err::<
                        (Seq<SpecKeyframeMetadata>, int),
                        ReadFailure,
                    >(e.kind()));
                }
                return Err(e);
            },
        };
        proof {
            let ghost rest_count = (count - i - 1) as nat;
            assert(spec_read_kf_list(data@, cur as int, (count - i) as nat) == (
            match spec_read_kf_list(data@, next as int, rest_count) {
                Ok((s, e)) => Ok::<(Seq<SpecKeyframeMetadata>, int), ReadFailure>(
                    (seq![m@] + s, e),
                ),
                Err(k) => Err(k),
            }));
            assert(kf_views(kfs@.push(m)) =~= kf_views(kfs@).push(m@));
            assert forall|s: Seq<SpecKeyframeMetadata>|
                true implies kf_views(kfs@).push(m@) + s =~= kf_views(kfs@) + (seq![m@] + s) by {}
        }
        kfs.push(m);
        cur = next;
        i = i + 1;
    }
    proof {
        assert(spec_read_kf_list(data@, cur as int, 0) == Ok::<
            (Seq<SpecKeyframeMetadata>, int),
            ReadFailure,
        >((Seq::empty(), cur as int)));
        assert(kf_views(kfs@) + Seq::<SpecKeyframeMetadata>::empty() =~= kf_views(kfs@));
    }
    Ok((kfs, cur))
}

/// Reads a count-prefixed bookmark list from `data` starting at `pos`.
fn read_bm_seq(data: &[u8], pos: usize) -> (r: Result<
    (Vec<BookmarkMetadata>, usize),
    PacketReadError,
>)
    ensures
        (r matches Ok((bms, end)) ==> spec_read_bm_seq(data@, pos as int) == Ok::<
            (Seq<SpecBookmarkMetadata>, int),
            ReadFailure,
        >((bm_views(bms@), end as int)) && pos < end <= data@.len()),
        (r matches Err(e) ==> spec_read_bm_seq(data@, pos as int) == Err::<
            (Seq<SpecBookmarkMetadata>, int),
            ReadFailure,
        >(e.kind())),
{
    let (count64, p1) = match read_uint(data, pos) {
        Ok(v) => v,
        Err(e) => {
            return Err(e);
        },
    };
    if count64 > usize::MAX as u64 {
        return Err(
            PacketReadError::ParseFail {
                explanation: String::from_str("list count exceeds this architecture"),
            },
        );
    }
    let count: usize = count64 as usize;
    let mut bms: Vec<BookmarkMetadata> = Vec::new();
    let mut cur: usize = p1;
    let mut i: usize = 0;
    while i < count
        invariant
            i <= count,
            pos < cur <= data@.len(),
            bms@.len() == i,
            spec_read_uint(data@, pos as int) == Ok::<(u64, int), ReadFailure>(
                (count as u64, p1 as int),
            ),
            count as u64 <= usize::MAX as u64,
            spec_read_bm_list(data@, p1 as int, count as nat) == (match spec_read_bm_list(
                data@,
                cur as int,
                (count - i) as nat,
            ) {
                Ok((s, e)) => Ok::<(Seq<SpecBookmarkMetadata>, int), ReadFailure>(
                    (bm_views(bms@) + s, e),
                ),
                Err(k) => Err(k),
            }),
        decreases count - i,
    {
        let (m, next) = match BookmarkMetadata::read_all(data, cur) {
            Ok(v) => v,
            Err(e) => {
                proof {
                    assert(spec_read_bm_list(data@, cur as int, (count - i) as nat) == Err::<
                        (Seq<SpecBookmarkMetadata>, int),
                        ReadFailure,
                    >(e.kind()));
                }
                return Err(e);
            },
        };
        proof {
            let ghost rest_count = (count - i - 1) as nat;
            assert(spec_read_bm_list(data@, cur as int, (count - i) as nat) == (
            match spec_read_bm_list(data@, next as int, rest_count) {
                Ok((s, e)) => Ok::<(Seq<SpecBookmarkMetadata>, int), ReadFailure>(
                    (seq![m@] + s, e),
                ),
                Err(k) => Err(k),
            }));
            assert(bm_views(bms@.push(m)) =~= bm_views(bms@).push(m@));
            assert forall|s: Seq<SpecBookmarkMetadata>|
                true implies bm_views(bms@).push(m@) + s =~= bm_views(bms@) + (seq![m@] + s) by {}
        }
        bms.push(m);
        cur = next;
        i = i + 1;
    }
    proof {
        assert(spec_read_bm_list(data@, cur as int, 0) == Ok::<
            (Seq<SpecBookmarkMetadata>, int),
            ReadFailure,
        >((Seq::empty(), cur as int)));
        assert(bm_views(bms@) + Seq::<SpecBookmarkMetadata>::empty() =~= bm_views(bms@));
    }
    Ok((bms, cur))
}

/// Reads `n` raw bytes from `data` starting at `pos`.
fn read_raw(data: &[u8], pos: usize, n: usize) -> (r: Result<(Vec<u8>, usize), PacketReadError>)
    requires
        n >= 1,
    ensures
        (r matches Ok((b, end)) ==> spec_read_raw(data@, pos as int, n as int) == Ok::<
            (Seq<u8>, int),
            ReadFailure,
        >((b@, end as int)) && pos < end <= data@.len()),
        (r matches Err(e) ==> spec_read_raw(data@, pos as int, n as int) == Err::<
            (Seq<u8>, int),
            ReadFailure,
        >(e.kind())),
{
    if pos > data.len() || data.len() - pos < n {
        return Err(PacketReadError::NotEnoughData);
    }
    let b = vstd::slice::slice_to_vec(&data[pos..pos + n]);
    Ok((b, pos + n))
}

impl Packet {
    /// Reads one packet from `data` starting at `pos`, returning the packet
    /// and the position just past it. The result is exactly what
    /// [`spec_read_packet`] describes for these bytes.
    #[verifier::rlimit(80)]
    pub fn read_all(data: &[u8], pos: usize) -> (r: Result<(Packet, usize), PacketReadError>)
        ensures
            (r matches Ok((p, end)) ==> spec_read_packet(data@, pos as int) == Ok::<
                (SpecPacket, int),
                ReadFailure,
            >((p@, end as int)) && pos < end <= data@.len()),
            (r matches Err(e) ==> spec_read_packet(data@, pos as int) == Err::<
                (SpecPacket, int),
                ReadFailure,
            >(e.kind())),
    {
        if pos >= data.len() {
            return Err(PacketReadError::NotEnoughData);
        }
        let d: u8 = data[pos];
        let p1: usize = pos + 1;
        if d == 0x00 {
            return Ok((Packet::NoOp, p1));
        }
        if d == 0xF3 {
            return Ok((Packet::ResetConsole, p1));
        }
        if d < 0x80 {
            return Ok((Packet::RunFrames { frames: d as u64 }, p1));
        }
        if d == 0x80 {
            let (frames, end) = match read_uint(data, p1) {
                Ok(v) => v,
                Err(e) => {
                    return Err(e);
                },
            };
            return Ok((Packet::RunFrames { frames }, end));
        }
        if d == 0x81 || d == 0x82 || d == 0x83 {
            let n: usize = if d == 0x81 {
                1
            } else if d == 0x82 {
                2
            } else {
                4
            };
            let (bytes, end) = match read_raw(data, p1, n) {
                Ok(v) => v,
                Err(e) => {
                    return Err(e);
                },
            };
            return Ok((Packet::ChangeInput { data: bytes }, end));
        }
        if d == 0x84 {
            let (bytes, end) = match read_bytes_field(data, p1) {
                Ok(v) => v,
                Err(e) => {
                    return Err(e);
                },
            };
            return Ok((Packet::ChangeInput { data: bytes }, end));
        }
        if d == 0x85 || d == 0x86 || d == 0x87 {
            let n: usize = if d == 0x85 {
                1
            } else if d == 0x86 {
                2
            } else {
                4
            };
            let (address, p2) = match read_uint(data, p1) {
                Ok(v) => v,
                Err(e) => {
                    return Err(e);
                },
            };
            let (bytes, end) = match read_raw(data, p2, n) {
                Ok(v) => v,
                Err(e) => {
                    return Err(e);
                },
            };
            return Ok((Packet::WriteMemory { address, data: bytes }, end));
        }
        if d == 0x88 {
            let (address, p2) = match read_uint(data, p1) {
                Ok(v) => v,
                Err(e) => {
                    return Err(e);
                },
            };
            let (bytes, end) = match read_bytes_field(data, p2) {
                Ok(v) => v,
                Err(e) => {
                    return Err(e);
                },
            };
            return Ok((Packet::WriteMemory { address, data: bytes }, end));
        }
        if d == 0xF0 {
            let (metadata, p2) = match KeyframeMetadata::read_all(data, p1) {
                Ok(v) => v,
                Err(e) => {
                    return Err(e);
                },
            };
            let (state, end) = match read_bytes_field(data, p2) {
                Ok(v) => v,
                Err(e) => {
                    return Err(e);
                },
            };
            return Ok((Packet::Keyframe { metadata, state }, end));
        }
        if d == 0xF1 {
            let (metadata, end) = match BookmarkMetadata::read_all(data, p1) {
                Ok(v) => v,
                Err(e) => {
                    return Err(e);
                },
            };
            return Ok((Packet::Bookmark { metadata }, end));
        }
        if d == 0xF2 {
            let (speed, end) = match read_u16(data, p1) {
                Ok(v) => v,
                Err(e) => {
                    return Err(e);
                },
            };
            if speed == 0 {
                return Err(
                    PacketReadError::ParseFail {
                        explanation: String::from_str(
                            "read a zero u16 when a nonzero speed was expected",
                        ),
                    },
                );
            }
            return Ok((Packet::ChangeSpeed { speed: Speed { speed_over_256: speed } }, end));
        }
        if d == 0xF4 {
            let (state, end) = match read_bytes_field(data, p1) {
                Ok(v) => v,
                Err(e) => {
                    return Err(e);
                },
            };
            return Ok((Packet::LoadSaveState { state }, end));
        }
        if d == 0xFE {
            let (keyframes, p2) = match read_kf_seq(data, p1) {
                Ok(v) => v,
                Err(e) => {
                    return Err(e);
                },
            };
            let (bookmarks, p3) = match read_bm_seq(data, p2) {
                Ok(v) => v,
                Err(e) => {
                    return Err(e);
                },
            };
            let (compressed_data, p4) = match read_bytes_field(data, p3) {
                Ok(v) => v,
                Err(e) => {
                    return Err(e);
                },
            };
            let (uncompressed_size, end) = match read_uint(data, p4) {
                Ok(v) => v,
                Err(e) => {
                    return Err(e);
                },
            };
            let p = Packet::CompressedBlob {
                keyframes,
                bookmarks,
                compressed_data,
                uncompressed_size,
            };
            assert(spec_read_packet(data@, pos as int) matches Ok((sp, e2)) && sp =~= p@ && e2
                == end as int);
            return Ok((p, end));
        }
        Err(
            PacketReadError::ParseFail {
                explanation: String::from_str("unknown packet discriminator"),
            },
        )
    }
}

proof fn lemma_read_spec_enc_kf_list(kfs: Seq<SpecKeyframeMetadata>, data: Seq<u8>, pos: int)
    requires
        forall|i: int| 0 <= i < kfs.len() ==> (#[trigger] kfs[i]).wf(),
        0 <= pos,
        pos + spec_enc_kf_list(kfs).len() <= data.len(),
        data.subrange(pos, pos + spec_enc_kf_list(kfs).len()) == spec_enc_kf_list(kfs),
    ensures
        spec_read_kf_list(data, pos, kfs.len()) == Ok::<(Seq<SpecKeyframeMetadata>, int),
            ReadFailure,
        >((kfs, pos + spec_enc_kf_list(kfs).len())),
    decreases kfs.len(),
{
    if kfs.len() == 0 {
        assert(spec_read_kf_list(data, pos, 0) == Ok::<(Seq<SpecKeyframeMetadata>, int),
            ReadFailure,
        >((Seq::empty(), pos)));
        assert(kfs =~= Seq::<SpecKeyframeMetadata>::empty());
    } else {
        let m = kfs.first();
        let rest = kfs.drop_first();
        let e1 = spec_enc_keyframe_metadata(m);
        let er = spec_enc_kf_list(rest);
        let enc = spec_enc_kf_list(kfs);
        assert(enc == e1 + er);
        assert(enc.subrange(0, e1.len() as int) =~= e1);
        assert(enc.subrange(e1.len() as int, enc.len() as int) =~= er);
        lemma_subrange_of_prefix(data, pos, e1, enc);
        assert(m.wf()) by {
            assert(kfs[0].wf());
        }
        lemma_read_spec_enc_keyframe_metadata(m, data, pos);
        lemma_subrange_of_middle(data, pos, e1.len() as int, er, enc);
        assert(forall|i: int| 0 <= i < rest.len() ==> (#[trigger] rest[i]).wf()) by {
            assert(forall|i: int| 0 <= i < rest.len() ==> rest[i] == kfs[i + 1]);
        }
        lemma_read_spec_enc_kf_list(rest, data, pos + e1.len());
        assert(seq![m] + rest =~= kfs);
    }
}

proof fn lemma_read_spec_enc_bm_list(bms: Seq<SpecBookmarkMetadata>, data: Seq<u8>, pos: int)
    requires
        forall|i: int| 0 <= i < bms.len() ==> (#[trigger] bms[i]).wf(),
        0 <= pos,
        pos + spec_enc_bm_list(bms).len() <= data.len(),
        data.subrange(pos, pos + spec_enc_bm_list(bms).len()) == spec_enc_bm_list(bms),
    ensures
        spec_read_bm_list(data, pos, bms.len()) == Ok::<(Seq<SpecBookmarkMetadata>, int),
            ReadFailure,
        >((bms, pos + spec_enc_bm_list(bms).len())),
    decreases bms.len(),
{
    if bms.len() == 0 {
        assert(spec_read_bm_list(data, pos, 0) == Ok::<(Seq<SpecBookmarkMetadata>, int),
            ReadFailure,
        >((Seq::empty(), pos)));
        assert(bms =~= Seq::<SpecBookmarkMetadata>::empty());
    } else {
        let m = bms.first();
        let rest = bms.drop_first();
        let e1 = spec_enc_bookmark_metadata(m);
        let er = spec_enc_bm_list(rest);
        let enc = spec_enc_bm_list(bms);
        assert(enc == e1 + er);
        assert(enc.subrange(0, e1.len() as int) =~= e1);
        assert(enc.subrange(e1.len() as int, enc.len() as int) =~= er);
        lemma_subrange_of_prefix(data, pos, e1, enc);
        assert(m.wf()) by {
            assert(bms[0].wf());
        }
        lemma_read_spec_enc_bookmark_metadata(m, data, pos);
        lemma_subrange_of_middle(data, pos, e1.len() as int, er, enc);
        assert(forall|i: int| 0 <= i < rest.len() ==> (#[trigger] rest[i]).wf()) by {
            assert(forall|i: int| 0 <= i < rest.len() ==> rest[i] == bms[i + 1]);
        }
        lemma_read_spec_enc_bm_list(rest, data, pos + e1.len());
        assert(seq![m] + rest =~= bms);
    }
}

proof fn lemma_read_spec_enc_kf_seq(kfs: Seq<SpecKeyframeMetadata>, data: Seq<u8>, pos: int)
    requires
        kfs.len() <= usize::MAX,
        forall|i: int| 0 <= i < kfs.len() ==> (#[trigger] kfs[i]).wf(),
        0 <= pos,
        pos + spec_enc_kf_seq(kfs).len() <= data.len(),
        data.subrange(pos, pos + spec_enc_kf_seq(kfs).len()) == spec_enc_kf_seq(kfs),
    ensures
        spec_read_kf_seq(data, pos) == Ok::<(Seq<SpecKeyframeMetadata>, int), ReadFailure>(
            (kfs, pos + spec_enc_kf_seq(kfs).len()),
        ),
{
    let cu = spec_enc_uint(kfs.len() as u64);
    let cl = spec_enc_kf_list(kfs);
    let enc = spec_enc_kf_seq(kfs);
    assert(enc == cu + cl);
    assert(enc.subrange(0, cu.len() as int) =~= cu);
    assert(enc.subrange(cu.len() as int, enc.len() as int) =~= cl);
    lemma_subrange_of_prefix(data, pos, cu, enc);
    lemma_read_spec_enc_uint(kfs.len() as u64, data, pos);
    lemma_subrange_of_middle(data, pos, cu.len() as int, cl, enc);
    lemma_read_spec_enc_kf_list(kfs, data, pos + cu.len());
}

proof fn lemma_read_spec_enc_bm_seq(bms: Seq<SpecBookmarkMetadata>, data: Seq<u8>, pos: int)
    requires
        bms.len() <= usize::MAX,
        forall|i: int| 0 <= i < bms.len() ==> (#[trigger] bms[i]).wf(),
        0 <= pos,
        pos + spec_enc_bm_seq(bms).len() <= data.len(),
        data.subrange(pos, pos + spec_enc_bm_seq(bms).len()) == spec_enc_bm_seq(bms),
    ensures
        spec_read_bm_seq(data, pos) == Ok::<(Seq<SpecBookmarkMetadata>, int), ReadFailure>(
            (bms, pos + spec_enc_bm_seq(bms).len()),
        ),
{
    let cu = spec_enc_uint(bms.len() as u64);
    let cl = spec_enc_bm_list(bms);
    let enc = spec_enc_bm_seq(bms);
    assert(enc == cu + cl);
    assert(enc.subrange(0, cu.len() as int) =~= cu);
    assert(enc.subrange(cu.len() as int, enc.len() as int) =~= cl);
    lemma_subrange_of_prefix(data, pos, cu, enc);
    lemma_read_spec_enc_uint(bms.len() as u64, data, pos);
    lemma_subrange_of_middle(data, pos, cu.len() as int, cl, enc);
    lemma_read_spec_enc_bm_list(bms, data, pos + cu.len());
}

/// Every encoding is at least one byte long.
pub proof fn lemma_enc_packet_nonempty(p: SpecPacket)
    ensures
        spec_enc_packet(p).len() >= 1,
{
}

/// Decoding any byte sequence that holds the canonical encoding of a valid
/// packet `p` at `pos` yields `p` back, consuming exactly its encoding.
#[verifier::rlimit(100)]
#[verifier::spinoff_prover]
pub proof fn lemma_read_spec_enc_packet(p: SpecPacket, data: Seq<u8>, pos: int)
    requires
        p.wf(),
        0 <= pos,
        pos + spec_enc_packet(p).len() <= data.len(),
        data.subrange(pos, pos + spec_enc_packet(p).len()) == spec_enc_packet(p),
    ensures
        spec_read_packet(data, pos) == Ok::<(SpecPacket, int), ReadFailure>(
            (p, pos + spec_enc_packet(p).len()),
        ),
{
    let enc = spec_enc_packet(p);
    assert(data[pos] == enc[0]);
    match p {
        SpecPacket::NoOp => {},
        SpecPacket::ResetConsole => {},
        SpecPacket::RunFrames { frames } => {
            if frames < 0x80 {
                assert(spec_read_packet(data, pos) matches Ok((q, e)) && q =~= p && e == pos + 1);
            } else {
                let eu = spec_enc_uint(frames);
                assert(enc.subrange(1, enc.len() as int) =~= eu);
                lemma_subrange_of_middle(data, pos, 1, eu, enc);
                lemma_read_spec_enc_uint(frames, data, pos + 1);
            }
        },
        SpecPacket::ChangeInput { .. } => {
            lemma_read_spec_enc_changeinput(p, data, pos);
        },
        SpecPacket::WriteMemory { .. } => {
            lemma_read_spec_enc_writemem(p, data, pos);
        },
        SpecPacket::ChangeSpeed { speed } => {
            let es = spec_enc_u16(speed);
            assert(enc.subrange(1, enc.len() as int) =~= es);
            lemma_subrange_of_middle(data, pos, 1, es, enc);
            lemma_read_spec_enc_u16(speed, data, pos + 1);
        },
        SpecPacket::LoadSaveState { state } => {
            let eb = spec_enc_bytes(state);
            assert(enc.subrange(1, enc.len() as int) =~= eb);
            lemma_subrange_of_middle(data, pos, 1, eb, enc);
            lemma_read_spec_enc_bytes(state, data, pos + 1);
        },
        SpecPacket::Bookmark { metadata } => {
            let em = spec_enc_bookmark_metadata(metadata);
            assert(enc.subrange(1, enc.len() as int) =~= em);
            lemma_subrange_of_middle(data, pos, 1, em, enc);
            lemma_read_spec_enc_bookmark_metadata(metadata, data, pos + 1);
        },
        SpecPacket::Keyframe { .. } => {
            lemma_read_spec_enc_kfpacket(p, data, pos);
        },
        SpecPacket::CompressedBlob { .. } => {
            lemma_read_spec_enc_blob(p, data, pos);
        },
    }
}

#[verifier::rlimit(100)]
#[verifier::spinoff_prover]
proof fn lemma_read_spec_enc_changeinput(p: SpecPacket, data: Seq<u8>, pos: int)
    requires
        p is ChangeInput,
        p.wf(),
        0 <= pos,
        pos + spec_enc_packet(p).len() <= data.len(),
        data.subrange(pos, pos + spec_enc_packet(p).len()) == spec_enc_packet(p),
    ensures
        spec_read_packet(data, pos) == Ok::<(SpecPacket, int), ReadFailure>(
            (p, pos + spec_enc_packet(p).len()),
        ),
{
    let enc = spec_enc_packet(p);
    assert(data[pos] == enc[0]);
    let b = p->ChangeInput_data;
    if b.len() == 1 || b.len() == 2 || b.len() == 4 {
        assert(enc.subrange(1, enc.len() as int) =~= b);
        lemma_subrange_of_middle(data, pos, 1, b, enc);
        assert(spec_read_raw(data, pos + 1, b.len() as int) == Ok::<(Seq<u8>, int),
            ReadFailure,
        >((b, pos + 1 + b.len())));
        assert(spec_read_packet(data, pos) matches Ok((q, e)) && q =~= p && e == pos + enc.len());
    } else {
        let eb = spec_enc_bytes(b);
        assert(enc.subrange(1, enc.len() as int) =~= eb);
        lemma_subrange_of_middle(data, pos, 1, eb, enc);
        lemma_read_spec_enc_bytes(b, data, pos + 1);
        assert(spec_read_packet(data, pos) matches Ok((q, e)) && q =~= p && e == pos + enc.len());
    }
}

#[verifier::rlimit(100)]
#[verifier::spinoff_prover]
proof fn lemma_read_spec_enc_kfpacket(p: SpecPacket, data: Seq<u8>, pos: int)
    requires
        p is Keyframe,
        p.wf(),
        0 <= pos,
        pos + spec_enc_packet(p).len() <= data.len(),
        data.subrange(pos, pos + spec_enc_packet(p).len()) == spec_enc_packet(p),
    ensures
        spec_read_packet(data, pos) == Ok::<(SpecPacket, int), ReadFailure>(
            (p, pos + spec_enc_packet(p).len()),
        ),
{
    let enc = spec_enc_packet(p);
    assert(data[pos] == enc[0]);
    let metadata = p->Keyframe_metadata;
    let state = p->Keyframe_state;
    let em = spec_enc_keyframe_metadata(metadata);
    let eb = spec_enc_bytes(state);
    assert(enc.subrange(1, 1 + em.len() as int) =~= em);
    lemma_subrange_of_middle(data, pos, 1, em, enc);
    lemma_read_spec_enc_keyframe_metadata(metadata, data, pos + 1);
    assert(enc.subrange(1 + em.len() as int, enc.len() as int) =~= eb);
    lemma_subrange_of_middle(data, pos, 1 + em.len() as int, eb, enc);
    lemma_read_spec_enc_bytes(state, data, pos + 1 + em.len());
    assert(spec_read_packet(data, pos) matches Ok((q, e)) && q =~= p && e == pos + enc.len());
}

#[verifier::rlimit(100)]
#[verifier::spinoff_prover]
proof fn lemma_read_spec_enc_writemem(p: SpecPacket, data: Seq<u8>, pos: int)
    requires
        p is WriteMemory,
        p.wf(),
        0 <= pos,
        pos + spec_enc_packet(p).len() <= data.len(),
        data.subrange(pos, pos + spec_enc_packet(p).len()) == spec_enc_packet(p),
    ensures
        spec_read_packet(data, pos) == Ok::<(SpecPacket, int), ReadFailure>(
            (p, pos + spec_enc_packet(p).len()),
        ),
{
    let enc = spec_enc_packet(p);
    assert(data[pos] == enc[0]);
    let address = p->WriteMemory_address;
    let b = p->WriteMemory_data;
    let ea = spec_enc_uint(address);
    if b.len() == 1 || b.len() == 2 || b.len() == 4 {
        assert(enc.subrange(1, 1 + ea.len() as int) =~= ea);
        lemma_subrange_of_middle(data, pos, 1, ea, enc);
        lemma_read_spec_enc_uint(address, data, pos + 1);
        assert(enc.subrange(1 + ea.len() as int, enc.len() as int) =~= b);
        lemma_subrange_of_middle(data, pos, 1 + ea.len() as int, b, enc);
        assert(spec_read_raw(data, pos + 1 + ea.len(), b.len() as int) == Ok::<
            (Seq<u8>, int),
            ReadFailure,
        >((b, pos + 1 + ea.len() + b.len())));
        assert(spec_read_packet(data, pos) matches Ok((q, e)) && q =~= p && e == pos + enc.len());
    } else {
        let eb = spec_enc_bytes(b);
        assert(enc.subrange(1, 1 + ea.len() as int) =~= ea);
        lemma_subrange_of_middle(data, pos, 1, ea, enc);
        lemma_read_spec_enc_uint(address, data, pos + 1);
        assert(enc.subrange(1 + ea.len() as int, enc.len() as int) =~= eb);
        lemma_subrange_of_middle(data, pos, 1 + ea.len() as int, eb, enc);
        lemma_read_spec_enc_bytes(b, data, pos + 1 + ea.len());
        assert(spec_read_packet(data, pos) matches Ok((q, e)) && q =~= p && e == pos + enc.len());
    }
}

#[verifier::rlimit(100)]
#[verifier::spinoff_prover]
proof fn lemma_read_spec_enc_blob(p: SpecPacket, data: Seq<u8>, pos: int)
    requires
        p is CompressedBlob,
        p.wf(),
        0 <= pos,
        pos + spec_enc_packet(p).len() <= data.len(),
        data.subrange(pos, pos + spec_enc_packet(p).len()) == spec_enc_packet(p),
    ensures
        spec_read_packet(data, pos) == Ok::<(SpecPacket, int), ReadFailure>(
            (p, pos + spec_enc_packet(p).len()),
        ),
{
    let enc = spec_enc_packet(p);
    assert(data[pos] == enc[0]);
    let keyframes = p->CompressedBlob_keyframes;
    let bookmarks = p->CompressedBlob_bookmarks;
    let compressed_data = p->CompressedBlob_compressed_data;
    let uncompressed_size = p->CompressedBlob_uncompressed_size;
    let ek = spec_enc_kf_seq(keyframes);
    let eb = spec_enc_bm_seq(bookmarks);
    let ec = spec_enc_bytes(compressed_data);
    let eu = spec_enc_uint(uncompressed_size);
    assert(enc == seq![0xFEu8] + ek + eb + ec + eu);
    assert(enc.subrange(1, 1 + ek.len() as int) =~= ek);
    lemma_subrange_of_middle(data, pos, 1, ek, enc);
    lemma_read_spec_enc_kf_seq(keyframes, data, pos + 1);
    assert(enc.subrange(1 + ek.len() as int, (1 + ek.len() + eb.len()) as int) =~= eb);
    lemma_subrange_of_middle(data, pos, 1 + ek.len() as int, eb, enc);
    lemma_read_spec_enc_bm_seq(bookmarks, data, pos + 1 + ek.len());
    assert(enc.subrange(
        (1 + ek.len() + eb.len()) as int,
        (1 + ek.len() + eb.len() + ec.len()) as int,
    ) =~= ec);
    lemma_subrange_of_middle(data, pos, (1 + ek.len() + eb.len()) as int, ec, enc);
    lemma_read_spec_enc_bytes(compressed_data, data, pos + 1 + ek.len() + eb.len());
    assert(enc.subrange(
        (1 + ek.len() + eb.len() + ec.len()) as int,
        (1 + ek.len() + eb.len() + ec.len() + eu.len()) as int,
    ) =~= eu);
    lemma_subrange_of_middle(
        data,
        pos,
        (1 + ek.len() + eb.len() + ec.len()) as int,
        eu,
        enc,
    );
    lemma_read_spec_enc_uint(
        uncompressed_size,
        data,
        pos + 1 + ek.len() + eb.len() + ec.len(),
    );
    assert(spec_read_packet(data, pos) matches Ok((q, e)) && q =~= p && e == pos
        + enc.len());
}

/// A run of `n` frame advances is packed as a single `RunFrames` packet;
/// for counts below 128 its whole encoding is the one discriminator byte
/// carrying the count, and from 128 up the escape byte is followed by the
/// compact count.
pub proof fn lemma_run_frames_encoding(n: u64)
    requires
        1 <= n,
    ensures
        n < 0x80 ==> spec_enc_packet(SpecPacket::RunFrames { frames: n }) == seq![n as u8],
        n >= 0x80 ==> spec_enc_packet(SpecPacket::RunFrames { frames: n }) == seq![0x80u8]
            + spec_enc_uint(n),
{
}

/// The mathematical values of a sequence of packets.
pub open spec fn packet_views(s: Seq<Packet>) -> Seq<SpecPacket> {
    s.map_values(|p: Packet| p@)
}

/// Concatenated encodings of a sequence of packets.
pub open spec fn spec_enc_packet_seq(ps: Seq<SpecPacket>) -> Seq<u8>
    decreases ps.len(),
{
    if ps.len() == 0 {
        Seq::empty()
    } else {
        spec_enc_packet(ps.first()) + spec_enc_packet_seq(ps.drop_first())
    }
}

/// Appending a packet appends its encoding.
pub proof fn lemma_enc_packet_seq_push(ps: Seq<SpecPacket>, p: SpecPacket)
    ensures
        spec_enc_packet_seq(ps.push(p)) == spec_enc_packet_seq(ps) + spec_enc_packet(p),
    decreases ps.len(),
{
    if ps.len() == 0 {
        assert(ps.push(p).drop_first() =~= ps);
        assert(ps.push(p).first() == p);
        assert(spec_enc_packet_seq(ps.push(p)) =~= spec_enc_packet_seq(ps) + spec_enc_packet(p));
    } else {
        assert(ps.push(p).drop_first() =~= ps.drop_first().push(p));
        lemma_enc_packet_seq_push(ps.drop_first(), p);
        assert(spec_enc_packet_seq(ps.push(p)) =~= spec_enc_packet_seq(ps) + spec_enc_packet(p));
    }
}

/// Encoding a concatenation concatenates the encodings.
pub proof fn lemma_enc_packet_seq_concat(a: Seq<SpecPacket>, b: Seq<SpecPacket>)
    ensures
        spec_enc_packet_seq(a + b) == spec_enc_packet_seq(a) + spec_enc_packet_seq(b),
    decreases b.len(),
{
    if b.len() == 0 {
        assert(a + b =~= a);
        assert(spec_enc_packet_seq(a + b) =~= spec_enc_packet_seq(a) + spec_enc_packet_seq(b));
    } else {
        let b0 = b.drop_last();
        assert(a + b =~= (a + b0).push(b.last()));
        assert(b =~= b0.push(b.last()));
        lemma_enc_packet_seq_push(a + b0, b.last());
        lemma_enc_packet_seq_push(b0, b.last());
        lemma_enc_packet_seq_concat(a, b0);
        assert(spec_enc_packet_seq(a + b) =~= spec_enc_packet_seq(a) + spec_enc_packet_seq(b));
    }
}

/// Result of parsing packets one after another from `pos` to the very end of
/// `data`. Any decode failure fails the whole parse.
pub open spec fn spec_parse_packet_stream(data: Seq<u8>, pos: int) -> Result<
    Seq<SpecPacket>,
    ReadFailure,
>
    decreases data.len() - pos,
{
    if pos >= data.len() {
        Ok(Seq::empty())
    } else if pos < 0 {
        Err(ReadFailure::NotEnoughData)
    } else {
        match spec_read_packet(data, pos) {
            Err(k) => Err(k),
            Ok((p, end)) => if pos < end <= data.len() {
                match spec_parse_packet_stream(data, end) {
                    Err(k) => Err(k),
                    Ok(rest) => Ok(seq![p] + rest),
                }
            } else {
                Err(ReadFailure::Invalid)
            },
        }
    }
}

/// Packets parsed from `pos` up to the end of `data` or the first decode
/// failure, whichever comes first.
pub open spec fn spec_parse_packet_stream_lenient(data: Seq<u8>, pos: int) -> Seq<SpecPacket>
    decreases data.len() - pos,
{
    if !(0 <= pos < data.len()) {
        Seq::empty()
    } else {
        match spec_read_packet(data, pos) {
            Err(_) => Seq::empty(),
            Ok((p, end)) => if pos < end <= data.len() {
                seq![p] + spec_parse_packet_stream_lenient(data, end)
            } else {
                seq![p]
            },
        }
    }
}

/// Parses every packet from `start` to the end of `data`.
///
/// With `allow_some_corruption`, parsing stops at the last packet that
/// decoded cleanly instead of failing; otherwise any decode failure fails
/// the whole parse.
#[verifier::rlimit(100)]
#[verifier::spinoff_prover]
pub fn read_packet_stream(data: &[u8], start: usize, allow_some_corruption: bool) -> (r: Result<
    Vec<Packet>,
    PacketReadError,
>)
    ensures
        (r matches Ok(ps) ==> (if allow_some_corruption {
            packet_views(ps@) == spec_parse_packet_stream_lenient(data@, start as int)
        } else {
            spec_parse_packet_stream(data@, start as int) == Ok::<Seq<SpecPacket>, ReadFailure>(
                packet_views(ps@),
            )
        })),
        (r matches Err(e) ==> !allow_some_corruption && spec_parse_packet_stream(
            data@,
            start as int,
        ) == Err::<Seq<SpecPacket>, ReadFailure>(e.kind())),
{
    if allow_some_corruption {
        Ok(read_packet_stream_lenient(data, start))
    } else {
        read_packet_stream_strict(data, start)
    }
}

/// Parses packets until the first decode failure, keeping what decoded.
#[verifier::rlimit(100)]
#[verifier::spinoff_prover]
fn read_packet_stream_lenient(data: &[u8], start: usize) -> (r: Vec<Packet>)
    ensures
        packet_views(r@) == spec_parse_packet_stream_lenient(data@, start as int),
{
    let dlen: usize = data.len();
    let mut packets: Vec<Packet> = Vec::new();
    let mut cur: usize = start;
    while cur < dlen
        invariant
            start <= cur,
            cur <= data@.len() || cur == start,
            dlen == data@.len(),
            spec_parse_packet_stream_lenient(data@, start as int) == packet_views(packets@)
                + spec_parse_packet_stream_lenient(data@, cur as int),
        decreases data@.len() - cur,
    {
        let (p, end) = match Packet::read_all(data, cur) {
            Ok(v) => v,
            Err(_) => {
                proof {
                    assert(spec_parse_packet_stream_lenient(data@, cur as int)
                        =~= Seq::<SpecPacket>::empty());
                    assert(packet_views(packets@) + Seq::<SpecPacket>::empty() =~= packet_views(
                        packets@,
                    ));
                }
                return packets;
            },
        };
        proof {
            assert(packet_views(packets@.push(p)) =~= packet_views(packets@).push(p@));
            assert(spec_parse_packet_stream_lenient(data@, cur as int) == seq![p@]
                + spec_parse_packet_stream_lenient(data@, end as int));
            assert(packet_views(packets@).push(p@) + spec_parse_packet_stream_lenient(
                data@,
                end as int,
            ) =~= packet_views(packets@) + spec_parse_packet_stream_lenient(data@, cur as int));
        }
        packets.push(p);
        cur = end;
    }
    proof {
        assert(spec_parse_packet_stream_lenient(data@, cur as int) =~= Seq::<SpecPacket>::empty());
        assert(packet_views(packets@) + Seq::<SpecPacket>::empty() =~= packet_views(packets@));
    }
    packets
}

/// Parses packets to the very end of the data; any decode failure fails
/// the whole parse.
#[verifier::rlimit(100)]
#[verifier::spinoff_prover]
fn read_packet_stream_strict(data: &[u8], start: usize) -> (r: Result<Vec<Packet>, PacketReadError>)
    ensures
        (r matches Ok(ps) ==> spec_parse_packet_stream(data@, start as int) == Ok::<
            Seq<SpecPacket>,
            ReadFailure,
        >(packet_views(ps@))),
        (r matches Err(e) ==> spec_parse_packet_stream(data@, start as int) == Err::<
            Seq<SpecPacket>,
            ReadFailure,
        >(e.kind())),
{
    let dlen: usize = data.len();
    let mut packets: Vec<Packet> = Vec::new();
    let mut cur: usize = start;
    while cur < dlen
        invariant
            start <= cur,
            cur <= data@.len() || cur == start,
            dlen == data@.len(),
            spec_parse_packet_stream(data@, start as int) == (match spec_parse_packet_stream(
                data@,
                cur as int,
            ) {
                Ok(rest) => Ok::<Seq<SpecPacket>, ReadFailure>(packet_views(packets@) + rest),
                Err(k) => Err(k),
            }),
        decreases data@.len() - cur,
    {
        let (p, end) = match Packet::read_all(data, cur) {
            Ok(v) => v,
            Err(e) => {
                return Err(e);
            },
        };
        proof {
            assert(packet_views(packets@.push(p)) =~= packet_views(packets@).push(p@));
            assert forall|rest: Seq<SpecPacket>|
                true implies packet_views(packets@).push(p@) + rest =~= packet_views(packets@) + (
            seq![p@] + rest) by {}
        }
        packets.push(p);
        cur = end;
    }
    proof {
        assert(spec_parse_packet_stream(data@, cur as int) == Ok::<Seq<SpecPacket>, ReadFailure>(
            Seq::empty(),
        ));
        assert(packet_views(packets@) + Seq::<SpecPacket>::empty() =~= packet_views(packets@));
    }
    Ok(packets)
}

/// Parsing the concatenated encodings of a valid packet sequence, laid down
/// at `pos` and running to the very end of the data, yields that sequence
/// back exactly. This is the codec half of the round-trip law: what the
/// recorder writes, the player reads back unchanged.
#[verifier::rlimit(100)]
#[verifier::spinoff_prover]
pub proof fn lemma_parse_spec_enc_packet_seq(ps: Seq<SpecPacket>, data: Seq<u8>, pos: int)
    requires
        forall|i: int| 0 <= i < ps.len() ==> (#[trigger] ps[i]).wf(),
        0 <= pos,
        data.len() == pos + spec_enc_packet_seq(ps).len(),
        data.subrange(pos, data.len() as int) == spec_enc_packet_seq(ps),
    ensures
        spec_parse_packet_stream(data, pos) == Ok::<Seq<SpecPacket>, ReadFailure>(ps),
    decreases ps.len(),
{
    if ps.len() == 0 {
        assert(ps =~= Seq::<SpecPacket>::empty());
    } else {
        let p = ps.first();
        let rest = ps.drop_first();
        let e1 = spec_enc_packet(p);
        let er = spec_enc_packet_seq(rest);
        let enc = spec_enc_packet_seq(ps);
        assert(enc == e1 + er);
        assert(enc.subrange(0, e1.len() as int) =~= e1);
        assert(enc.subrange(e1.len() as int, enc.len() as int) =~= er);
        lemma_subrange_of_prefix(data, pos, e1, enc);
        assert(p.wf()) by {
            assert(ps[0].wf());
        }
        lemma_read_spec_enc_packet(p, data, pos);
        lemma_enc_packet_nonempty(p);
        lemma_subrange_of_middle(data, pos, e1.len() as int, er, enc);
        assert(data.subrange(pos + e1.len(), data.len() as int) == er);
        assert(forall|i: int| 0 <= i < rest.len() ==> (#[trigger] rest[i]).wf()) by {
            assert(forall|i: int| 0 <= i < rest.len() ==> rest[i] == ps[i + 1]);
        }
        lemma_parse_spec_enc_packet_seq(rest, data, pos + e1.len());
        assert(seq![p] + rest =~= ps);
    }
}

/// Number of bytes the compact form of `v` needs, not counting the length byte.
fn uint_len_exec(v: u64) -> (n: u8)
    ensures
        n as nat == uint_len(v),
{
    if v == 0 {
        0
    } else if v < 0x100 {
        1
    } else if v < 0x1_0000 {
        2
    } else if v < 0x100_0000 {
        3
    } else if v < 0x1_0000_0000 {
        4
    } else if v < 0x100_0000_0000 {
        5
    } else if v < 0x1_0000_0000_0000 {
        6
    } else if v < 0x100_0000_0000_0000 {
        7
    } else {
        8
    }
}

} // verus!
