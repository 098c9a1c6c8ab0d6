use vstd::prelude::*;
use crate::error::PipelineError;
use crate::digest::{absorbed, hasher_finish, hasher_update, lower_hex_text, new_hasher, sha256_hex, sha256_input_limit, sha2_sha256, Sha256State};
use crate::clock::now_millis;

use crate::header::{same_fields_but_steps, FileHeader, CURRENT_FORMAT_VERSION};
use crate::text::string_eq;

verus! {

/// Bytes of the fixed part of a footer: header length (4), format version
/// (2) and magic bytes (8).
pub const FOOTER_FIXED_SIZE: usize = 14;

/// Bytes in front of a chunk's data: nonce (12) and data length (4).
pub const CHUNK_HEADER_SIZE: usize = 16;

/// The four little-endian bytes of a 32-bit value.
pub open spec fn u32_le(n: nat) -> Seq<u8> {
    seq![(n % 256) as u8, ((n / 256) % 256) as u8, ((n / 65536) % 256) as u8, ((n / 16777216) % 256) as u8]
}

/// The value of four little-endian bytes.
pub open spec fn le_u32_value(b: Seq<u8>) -> nat {
    (b[0] as nat) + 256 * (b[1] as nat) + 65536 * (b[2] as nat) + 16777216 * (b[3] as nat)
}

/// The two little-endian bytes of a 16-bit value.
pub open spec fn u16_le(n: nat) -> Seq<u8> {
    seq![(n % 256) as u8, ((n / 256) % 256) as u8]
}

/// The value of two little-endian bytes.
pub open spec fn le_u16_value(b: Seq<u8>) -> nat {
    (b[0] as nat) + 256 * (b[1] as nat)
}

/// The magic bytes that end every `.adapipe` file: `ADAPIPE` and a zero byte.
pub open spec fn magic_bytes() -> Seq<u8> {
    seq![65u8, 68u8, 65u8, 80u8, 73u8, 80u8, 69u8, 0u8]
}

/// The footer that follows the chunk data: the JSON header, its length, the
/// format version and the magic bytes.
pub open spec fn footer_bytes(json: Seq<u8>, version: u16) -> Seq<u8> {
    json + u32_le(json.len()) + u16_le(version as nat) + magic_bytes()
}

/// The bytes of one chunk: nonce, data length, data.
pub open spec fn chunk_record(nonce: Seq<u8>, data: Seq<u8>) -> Seq<u8> {
    nonce + u32_le(data.len()) + data
}

/// Decoding four little-endian bytes gives back the value they encode.
pub proof fn lemma_u32_le_round_trip(n: nat)
    requires
        n < 0x1_0000_0000,
    ensures
        u32_le(n).len() == 4,
        le_u32_value(u32_le(n)) == n,
{
    let b = u32_le(n);
    assert(b[0] as nat == n % 256);
    assert(b[1] as nat == (n / 256) % 256);
    assert(b[2] as nat == (n / 65536) % 256);
    assert(b[3] as nat == (n / 16777216) % 256);
    assert((n % 256) + 256 * ((n / 256) % 256) + 65536 * ((n / 65536) % 256) + 16777216 * ((n
        / 16777216) % 256) == n) by (nonlinear_arith)
        requires
            n < 0x1_0000_0000,
    ;
}

/// Decoding two little-endian bytes gives back the value they encode.
pub proof fn lemma_u16_le_round_trip(n: nat)
    requires
        n < 0x1_0000,
    ensures
        u16_le(n).len() == 2,
        le_u16_value(u16_le(n)) == n,
{
    let b = u16_le(n);
    assert(b[0] as nat == n % 256);
    assert(b[1] as nat == (n / 256) % 256);
    assert((n % 256) + 256 * ((n / 256) % 256) == n) by (nonlinear_arith)
        requires
            n < 0x1_0000,
    ;
}

/// Appends the little-endian bytes of `n`.
pub fn push_u32_le(out: &mut Vec<u8>, n: u32)
    ensures
        final(out)@ == old(out)@ + u32_le(n as nat),
{
    out.push((n % 256) as u8);
    out.push(((n / 256) % 256) as u8);
    out.push(((n / 65536) % 256) as u8);
    out.push(((n / 16777216) % 256) as u8);
    assert(final(out)@ =~= old(out)@ + u32_le(n as nat));
}

/// Appends the little-endian bytes of `n`.
pub fn push_u16_le(out: &mut Vec<u8>, n: u16)
    ensures
        final(out)@ == old(out)@ + u16_le(n as nat),
{
    out.push((n % 256) as u8);
    out.push(((n / 256) % 256) as u8);
    assert(final(out)@ =~= old(out)@ + u16_le(n as nat));
}

/// The 32-bit value stored little-endian at `at`.
pub fn read_u32_le(b: &[u8], at: usize) -> (n: u32)
    requires
        at + 4 <= b@.len(),
    ensures
        n as nat == le_u32_value(b@.subrange(at as int, at + 4)),
{
    let b0 = b[at] as u32;
    let b1 = b[at + 1] as u32;
    let b2 = b[at + 2] as u32;
    let b3 = b[at + 3] as u32;
    b0 + 256 * b1 + 65536 * b2 + 16777216 * b3
}

/// The 16-bit value stored little-endian at `at`.
pub fn read_u16_le(b: &[u8], at: usize) -> (n: u16)
    requires
        at + 2 <= b@.len(),
    ensures
        n as nat == le_u16_value(b@.subrange(at as int, at + 2)),
{
    let b0 = b[at] as u16;
    let b1 = b[at + 1] as u16;
    b0 + 256 * b1
}

/// Appends the magic bytes.
pub fn push_magic(out: &mut Vec<u8>)
    ensures
        final(out)@ == old(out)@ + magic_bytes(),
{
    out.push(65u8);
    out.push(68u8);
    out.push(65u8);
    out.push(80u8);
    out.push(73u8);
    out.push(80u8);
    out.push(69u8);
    out.push(0u8);
    assert(final(out)@ =~= old(out)@ + magic_bytes());
}

/// Whether the magic bytes stand at `at`.
pub fn magic_at(b: &[u8], at: usize) -> (r: bool)
    requires
        at + 8 <= b@.len(),
    ensures
        r == (b@.subrange(at as int, at + 8) == magic_bytes()),
{
    let r = b[at] == 65u8 && b[at + 1] == 68u8 && b[at + 2] == 65u8 && b[at + 3] == 80u8 && b[at
        + 4] == 73u8 && b[at + 5] == 80u8 && b[at + 6] == 69u8 && b[at + 7] == 0u8;
    proof {
        let s = b@.subrange(at as int, at + 8);
        if r {
            assert(s =~= magic_bytes());
        } else {
            assert(s != magic_bytes()) by {
                if s == magic_bytes() {
                    assert(s[0] == 65u8 && s[1] == 68u8 && s[2] == 65u8 && s[3] == 80u8);
                    assert(s[4] == 73u8 && s[5] == 80u8 && s[6] == 69u8 && s[7] == 0u8);
                }
            }
        }
    }
    r
}

/// Appends all bytes of `src`.
pub fn push_all(out: &mut Vec<u8>, src: &[u8])
    ensures
        final(out)@ == old(out)@ + src@,
{
    let mut i: usize = 0;
    while i < src.len()
        invariant
            i <= src@.len(),
            out@ == old(out)@ + src@.take(i as int),
        decreases src@.len() - i,
    {
        out.push(src[i]);
        proof {
            assert(src@.take(i as int + 1) =~= src@.take(i as int).push(src@[i as int]));
        }
        i = i + 1;
    }
    proof {
        assert(src@.take(src@.len() as int) =~= src@);
    }
}

/// The bytes `b[start..end]` as a new vector.
pub fn copy_range(b: &[u8], start: usize, end: usize) -> (v: Vec<u8>)
    requires
        start <= end <= b@.len(),
    ensures
        v@ == b@.subrange(start as int, end as int),
{
    let mut v: Vec<u8> = Vec::new();
    let mut i: usize = start;
    while i < end
        invariant
            start <= i <= end,
            end <= b@.len(),
            v@ == b@.subrange(start as int, i as int),
        decreases end - i,
    {
        v.push(b[i]);
        proof {
            assert(b@.subrange(start as int, i as int + 1) =~= b@.subrange(start as int, i as int).push(b@[i as int]));
        }
        i = i + 1;
    }
    v
}

/// The footer for a JSON header of `json` bytes in format `version`.
pub fn encode_footer(json: &[u8], version: u16) -> (f: Vec<u8>)
    requires
        json@.len() < 0x1_0000_0000,
    ensures
        f@ == footer_bytes(json@, version),
{
    let mut f: Vec<u8> = Vec::new();
    push_all(&mut f, json);
    push_u32_le(&mut f, json.len() as u32);
    push_u16_le(&mut f, version);
    push_magic(&mut f);
    assert(f@ =~= footer_bytes(json@, version));
    f
}

/// Where the JSON header of an `.adapipe` file lies, and the format version.
#[derive(Debug, Clone, Copy, PartialEq, Eq, Structural)]
pub struct FooterLayout {
    /// Offset of the JSON header, which is also the length of the chunk data
    pub json_start: usize,
    pub json_len: usize,
    pub format_version: u16,
}

/// The layout of a well-formed footer at the end of `file`, or `None`.
pub open spec fn footer_layout(file: Seq<u8>) -> Option<FooterLayout> {
    let n = file.len();
    if n < 14 {
        None
    } else if file.subrange(n - 8, n as int) != magic_bytes() {
        None
    } else if le_u16_value(file.subrange(n - 10, n - 8)) > CURRENT_FORMAT_VERSION {
        None
    } else if le_u32_value(file.subrange(n - 14, n - 10)) > n - 14 {
        None
    } else {
        let len = le_u32_value(file.subrange(n - 14, n - 10));
        Some(
            FooterLayout {
                json_start: (n - 14 - len) as usize,
                json_len: len as usize,
                format_version: le_u16_value(file.subrange(n - 10, n - 8)) as u16,
            },
        )
    }
}

/// The message of the error for a file whose footer is not well formed.
pub open spec fn footer_error_message(file: Seq<u8>) -> Seq<char> {
    let n = file.len();
    if n < 14 {
        "File too small to contain an .adapipe footer"@
    } else if file.subrange(n - 8, n as int) != magic_bytes() {
        "Invalid magic bytes: not an .adapipe file"@
    } else if le_u16_value(file.subrange(n - 10, n - 8)) > CURRENT_FORMAT_VERSION {
        "Unsupported .adapipe format version"@
    } else {
        "Header length exceeds file size"@
    }
}

/// Reads the footer at the end of an `.adapipe` file: checks the magic bytes
/// and the format version and locates the JSON header, which ends where the
/// fixed part of the footer begins. A file that breaks a rule is a
/// `ValidationError`.
pub fn parse_footer(file: &[u8]) -> (r: Result<FooterLayout, PipelineError>)
    ensures
        match r {
            Ok(layout) => footer_layout(file@) == Some(layout),
            Err(e) => footer_layout(file@) is None && (e matches PipelineError::ValidationError(m)
                && m@ == footer_error_message(file@)),
        },
{
    let n = file.len();
    if n < FOOTER_FIXED_SIZE {
        return Err(PipelineError::ValidationError(String::from_str("File too small to contain an .adapipe footer")));
    }
    if !magic_at(file, n - 8) {
        return Err(PipelineError::ValidationError(String::from_str("Invalid magic bytes: not an .adapipe file")));
    }
    let version = read_u16_le(file, n - 10);
    if version > CURRENT_FORMAT_VERSION {
        return Err(PipelineError::ValidationError(String::from_str("Unsupported .adapipe format version")));
    }
    let len = read_u32_le(file, n - 14);
    if len as usize > n - 14 {
        return Err(PipelineError::ValidationError(String::from_str("Header length exceeds file size")));
    }
    let len = len as usize;
    Ok(FooterLayout { json_start: n - 14 - len, json_len: len, format_version: version })
}

/// A footer written for `json` in a supported version is read back from the
/// end of any file that ends with it: the layout names the version, the JSON
/// length, and places the JSON right after whatever precedes the footer.
pub proof fn lemma_footer_round_trip(prefix: Seq<u8>, json: Seq<u8>, version: u16)
    requires
        json.len() < 0x1_0000_0000,
        version <= CURRENT_FORMAT_VERSION,
    ensures
        footer_layout(prefix + footer_bytes(json, version)) == Some(
            FooterLayout {
                json_start: prefix.len() as usize,
                json_len: json.len() as usize,
                format_version: version,
            },
        ),
        (prefix + footer_bytes(json, version)).subrange(prefix.len() as int, (prefix.len() + json.len()) as int) == json,
{
    let f = prefix + footer_bytes(json, version);
    let n = f.len();
    let p = prefix.len();
    let j = json.len();
    lemma_u32_le_round_trip(j);
    lemma_u16_le_round_trip(version as nat);
    assert(n == p + j + 14);
    assert(f.subrange(n - 8, n as int) =~= magic_bytes());
    assert(f.subrange(n - 10, n - 8) =~= u16_le(version as nat));
    assert(f.subrange(n - 14, n - 10) =~= u32_le(j));
    assert(f.subrange(p as int, (p + j) as int) =~= json);
}

/// One chunk as stored in an `.adapipe` file: the nonce it was encrypted
/// with and its (possibly encrypted) data.
#[derive(Debug, Clone, PartialEq, Eq)]
pub struct ChunkFormat {
    pub nonce: [u8; 12],
    pub encrypted_data: Vec<u8>,
}

/// The bytes of a run of chunks, one record after another.
pub open spec fn chunks_stream(cs: Seq<ChunkFormat>) -> Seq<u8>
    decreases cs.len(),
{
    if cs.len() == 0 {
        Seq::empty()
    } else {
        chunks_stream(cs.drop_last()) + chunk_record(cs.last().nonce@, cs.last().encrypted_data@)
    }
}

/// Whether every chunk's data length fits the 32-bit length field.
pub open spec fn lengths_fit(cs: Seq<ChunkFormat>) -> bool {
    forall|i: int| 0 <= i < cs.len() ==> #[trigger] cs[i].encrypted_data@.len() < 0x1_0000_0000
}

/// The total of the data lengths plus sixteen bytes per chunk.
pub open spec fn stored_size(cs: Seq<ChunkFormat>) -> nat
    decreases cs.len(),
{
    if cs.len() == 0 {
        0
    } else {
        stored_size(cs.drop_last()) + cs.last().encrypted_data@.len() + 16
    }
}

impl ChunkFormat {
    /// A chunk of `encrypted_data` with its nonce.
    pub fn new(nonce: [u8; 12], encrypted_data: Vec<u8>) -> (c: Self)
        ensures
            c.nonce == nonce,
            c.encrypted_data == encrypted_data,
    {
        ChunkFormat { nonce, encrypted_data }
    }

    /// The stored form of the chunk: nonce, data length (little-endian), data.
    pub fn to_bytes(&self) -> (b: Vec<u8>)
        requires
            self.encrypted_data@.len() < 0x1_0000_0000,
        ensures
            b@ == chunk_record(self.nonce@, self.encrypted_data@),
    {
        let mut b: Vec<u8> = Vec::new();
        push_all(&mut b, self.nonce.as_slice());
        push_u32_le(&mut b, self.encrypted_data.len() as u32);
        push_all(&mut b, self.encrypted_data.as_slice());
        b
    }

    /// The stored form of the chunk and its length.
    pub fn to_bytes_with_size(&self) -> (r: (Vec<u8>, u64))
        requires
            self.encrypted_data@.len() < 0x1_0000_0000,
        ensures
            r.0@ == chunk_record(self.nonce@, self.encrypted_data@),
            r.1 == r.0@.len(),
            r.1 == self.encrypted_data@.len() + 16,
    {
        let b = self.to_bytes();
        let n = b.len() as u64;
        (b, n)
    }

    /// A copy of this chunk.
    pub fn duplicate(&self) -> (c: Self)
        ensures
            c.nonce@ == self.nonce@,
            c.encrypted_data@ == self.encrypted_data@,
    {
        let mut data: Vec<u8> = Vec::new();
        push_all(&mut data, self.encrypted_data.as_slice());
        ChunkFormat { nonce: self.nonce, encrypted_data: data }
    }
}

/// What reading one chunk record at `pos` finds.
pub enum ChunkStep {
    /// A whole record: its nonce and data, and where the next record starts
    Chunk { nonce: Seq<u8>, data: Seq<u8>, next: nat },
    /// Fewer than sixteen bytes are left
    End,
    /// The record's data runs past the end of the file
    Truncated,
}

/// Reading one chunk record of `file` at `pos`.
pub open spec fn chunk_step(file: Seq<u8>, pos: nat) -> ChunkStep {
    let p = pos as int;
    if p + 16 > file.len() {
        ChunkStep::End
    } else {
        let len = le_u32_value(file.subrange(p + 12, p + 16)) as int;
        if p + 16 + len > file.len() {
            ChunkStep::Truncated
        } else {
            ChunkStep::Chunk {
                nonce: file.subrange(p, p + 12),
                data: file.subrange(p + 16, p + 16 + len),
                next: (p + 16 + len) as nat,
            }
        }
    }
}

/// The stream of the first `k` chunks is a prefix of the stream of all of
/// them.
pub proof fn lemma_stream_prefix(cs: Seq<ChunkFormat>, k: int)
    requires
        0 <= k <= cs.len(),
    ensures
        chunks_stream(cs).subrange(0, chunks_stream(cs.take(k)).len() as int) == chunks_stream(cs.take(k)),
        chunks_stream(cs.take(k)).len() <= chunks_stream(cs).len(),
    decreases cs.len(),
{
    if k == cs.len() {
        assert(cs.take(k) =~= cs);
        assert(chunks_stream(cs).subrange(0, chunks_stream(cs).len() as int) =~= chunks_stream(cs));
    } else {
        let d = cs.drop_last();
        assert(cs.take(k) =~= d.take(k));
        lemma_stream_prefix(d, k);
        let a = chunks_stream(d);
        let b = chunk_record(cs.last().nonce@, cs.last().encrypted_data@);
        let m = chunks_stream(d.take(k)).len() as int;
        assert((a + b).subrange(0, m) =~= a.subrange(0, m));
    }
}

/// A slice that lies within a known prefix of `x` is a slice of that
/// prefix, whatever follows `x`.
proof fn lemma_slice_in_prefix(x: Seq<u8>, y: Seq<u8>, pfx: Seq<u8>, a: int, b: int)
    requires
        pfx.len() <= x.len(),
        x.subrange(0, pfx.len() as int) == pfx,
        0 <= a <= b <= pfx.len(),
    ensures
        (x + y).subrange(a, b) == pfx.subrange(a, b),
{
    assert forall|k: int| 0 <= k < b - a implies (x + y).subrange(a, b)[k] == pfx.subrange(a, b)[k] by {
        assert(x.subrange(0, pfx.len() as int)[a + k] == x[a + k]);
    }
    assert((x + y).subrange(a, b) =~= pfx.subrange(a, b));
}

/// Reading the `i`-th record of a stream of chunks, followed by anything,
/// finds that chunk's nonce and data and ends where the next record starts.
pub proof fn lemma_chunk_step_reads_back(cs: Seq<ChunkFormat>, rest: Seq<u8>, i: int)
    requires
        0 <= i < cs.len(),
        lengths_fit(cs),
    ensures
        chunk_step(chunks_stream(cs) + rest, chunks_stream(cs.take(i)).len()) == (ChunkStep::Chunk {
            nonce: cs[i].nonce@,
            data: cs[i].encrypted_data@,
            next: chunks_stream(cs.take(i + 1)).len(),
        }),
{
    let t = cs.take(i + 1);
    assert(t.drop_last() =~= cs.take(i));
    assert(t.last() == cs[i]);
    lemma_stream_prefix(cs, i + 1);
    let whole = chunks_stream(cs);
    let pre = chunks_stream(cs.take(i));
    let p = pre.len() as int;
    let c = cs[i];
    let rec = chunk_record(c.nonce@, c.encrypted_data@);
    let len = c.encrypted_data@.len() as int;
    let pr = pre + rec;
    assert(c.nonce@.len() == 12);
    lemma_u32_le_round_trip(len as nat);
    assert(chunks_stream(t) == pr);
    assert(rec.len() == 16 + len);
    lemma_slice_in_prefix(whole, rest, pr, p + 12, p + 16);
    lemma_slice_in_prefix(whole, rest, pr, p, p + 12);
    lemma_slice_in_prefix(whole, rest, pr, p + 16, p + 16 + len);
    assert(pr.subrange(p + 12, p + 16) =~= u32_le(len as nat));
    assert(pr.subrange(p, p + 12) =~= c.nonce@);
    assert(pr.subrange(p + 16, p + 16 + len) =~= c.encrypted_data@);
}

/// The stored size of a prefix of the chunks is at most that of all of them.
pub proof fn lemma_stored_size_prefix(cs: Seq<ChunkFormat>, k: int)
    requires
        0 <= k <= cs.len(),
    ensures
        stored_size(cs.take(k)) <= stored_size(cs),
    decreases cs.len(),
{
    if k == cs.len() {
        assert(cs.take(k) =~= cs);
    } else {
        let d = cs.drop_last();
        assert(cs.take(k) =~= d.take(k));
        lemma_stored_size_prefix(d, k);
    }
}

/// The stored size of chunks is the length of their stream.
pub proof fn lemma_stored_size_is_stream_len(cs: Seq<ChunkFormat>)
    requires
        lengths_fit(cs),
    ensures
        stored_size(cs) == chunks_stream(cs).len(),
    decreases cs.len(),
{
    if cs.len() > 0 {
        let d = cs.drop_last();
        assert(lengths_fit(d)) by {
            assert forall|i: int| 0 <= i < d.len() implies #[trigger] d[i].encrypted_data@.len() < 0x1_0000_0000 by {
                assert(d[i] == cs[i]);
            }
        }
        lemma_stored_size_is_stream_len(d);
        assert(cs.last().nonce@.len() == 12);
        assert(cs.last() == cs[cs.len() - 1]);
        lemma_u32_le_round_trip(cs.last().encrypted_data@.len());
    }
}

/// Where a seek to a chunk ends up, starting from the first record with no
/// chunk read yet.
pub enum SeekOutcome {
    /// All requested chunks were read; reading continues at `pos`
    Reached { pos: nat },
    /// The chunks ran out after `index` of them; reading continues at `pos`
    OutOfBounds { pos: nat, index: nat },
    /// A record ran past the end of the file after `index` chunks
    Failed { index: nat },
}

/// Reading chunks `j`, `j + 1`, ... up to `k` from `pos`, in a file whose
/// header announces `count` chunks.
pub open spec fn seek_walk(file: Seq<u8>, count: nat, pos: nat, j: nat, k: nat) -> SeekOutcome
    decreases k - j,
{
    if j >= k {
        SeekOutcome::Reached { pos }
    } else if j >= count {
        SeekOutcome::OutOfBounds { pos, index: j }
    } else {
        match chunk_step(file, pos) {
            ChunkStep::End => SeekOutcome::OutOfBounds { pos: file.len(), index: j },
            ChunkStep::Truncated => SeekOutcome::Failed { index: j },
            ChunkStep::Chunk { next, .. } => seek_walk(file, count, next, j + 1, k),
        }
    }
}

/// The message of the error for a chunk whose data runs past the end.
pub open spec fn truncated_chunk_message() -> Seq<char> {
    "Failed to read chunk data: early eof"@
}

/// Reads the chunks of an `.adapipe` file held in memory, one after another
/// from the start of the file.
#[derive(Debug)]
pub struct StreamingBinaryReader {
    file: Vec<u8>,
    header: FileHeader,
    layout: FooterLayout,
    position: usize,
    current_chunk_index: u32,
}

impl StreamingBinaryReader {
    #[verifier::type_invariant]
    spec fn inv(self) -> bool {
        &&& self.position <= self.file@.len()
        &&& footer_layout(self.file@) == Some(self.layout)
    }

    /// The whole file.
    pub closed spec fn spec_file(&self) -> Seq<u8> {
        self.file@
    }

    /// The header the file was opened with.
    pub closed spec fn spec_header(&self) -> &FileHeader {
        &self.header
    }

    /// Where the next chunk record is read.
    pub closed spec fn spec_position(&self) -> nat {
        self.position as nat
    }

    /// How many chunks have been read since the start.
    pub closed spec fn spec_chunk_index(&self) -> nat {
        self.current_chunk_index as nat
    }

    /// The layout of the file's footer.
    pub closed spec fn spec_layout(&self) -> FooterLayout {
        self.layout
    }

    /// Opens the bytes of an `.adapipe` file whose JSON header has been read
    /// as `header`; the footer must be well formed.
    pub fn new(file_data: Vec<u8>, header: FileHeader) -> (r: Result<Self, PipelineError>)
        ensures
            match r {
                Ok(reader) => {
                    &&& footer_layout(file_data@) == Some(reader.spec_layout())
                    &&& reader.spec_file() == file_data@
                    &&& *reader.spec_header() == header
                    &&& reader.spec_position() == 0
                    &&& reader.spec_chunk_index() == 0
                },
                Err(e) => footer_layout(file_data@) is None && (e matches PipelineError::ValidationError(m)
                    && m@ == footer_error_message(file_data@)),
            },
    {
        let layout = parse_footer(file_data.as_slice())?;
        Ok(StreamingBinaryReader { file: file_data, header, layout, position: 0, current_chunk_index: 0 })
    }

    /// The header the file was opened with.
    pub fn read_header(&self) -> (h: &FileHeader)
        ensures
            h == self.spec_header(),
    {
        &self.header
    }

    /// The size of the file in bytes.
    pub fn file_size(&self) -> (n: usize)
        ensures
            n == self.spec_file().len(),
    {
        self.file.len()
    }

    /// The layout of the file's footer.
    pub fn layout(&self) -> (l: FooterLayout)
        ensures
            l == self.spec_layout(),
    {
        self.layout
    }

    /// Reads the next chunk. Once the header's chunk count has been read, or
    /// fewer than sixteen bytes are left, there is none; a record whose data
    /// runs past the end of the file is an `IoError`.
    pub fn read_next_chunk(&mut self) -> (r: Result<Option<ChunkFormat>, PipelineError>)
        ensures
            final(self).spec_file() == old(self).spec_file(),
            final(self).spec_header() == old(self).spec_header(),
            final(self).spec_layout() == old(self).spec_layout(),
            old(self).spec_chunk_index() >= old(self).spec_header().chunk_count ==> {
                &&& r matches Ok(None)
                &&& final(self).spec_position() == old(self).spec_position()
                &&& final(self).spec_chunk_index() == old(self).spec_chunk_index()
            },
            old(self).spec_chunk_index() < old(self).spec_header().chunk_count ==> match chunk_step(
                old(self).spec_file(),
                old(self).spec_position(),
            ) {
                ChunkStep::End => {
                    &&& r matches Ok(None)
                    &&& final(self).spec_position() == old(self).spec_file().len()
                    &&& final(self).spec_chunk_index() == old(self).spec_chunk_index()
                },
                ChunkStep::Truncated => {
                    &&& r matches Err(PipelineError::IoError(m)) && m@ == truncated_chunk_message()
                    &&& final(self).spec_position() == old(self).spec_file().len()
                    &&& final(self).spec_chunk_index() == old(self).spec_chunk_index()
                },
                ChunkStep::Chunk { nonce, data, next } => {
                    &&& r matches Ok(Some(c)) && c.nonce@ == nonce && c.encrypted_data@ == data
                    &&& final(self).spec_position() == next
                    &&& final(self).spec_chunk_index() == old(self).spec_chunk_index() + 1
                },
            },
    {
        proof {
            use_type_invariant(&*self);
        }
        if self.current_chunk_index >= self.header.chunk_count {
            return Ok(None);
        }
        let p = self.position;
        let n = self.file.len();
        if n - p < CHUNK_HEADER_SIZE {
            self.position = n;
            return Ok(None);
        }
        let f = self.file.as_slice();
        let len = read_u32_le(f, p + 12) as usize;
        if n - p - CHUNK_HEADER_SIZE < len {
            self.position = n;
            return Err(PipelineError::IoError(String::from_str("Failed to read chunk data: early eof")));
        }
        let nonce: [u8; 12] = [
            f[p],
            f[p + 1],
            f[p + 2],
            f[p + 3],
            f[p + 4],
            f[p + 5],
            f[p + 6],
            f[p + 7],
            f[p + 8],
            f[p + 9],
            f[p + 10],
            f[p + 11],
        ];
        let data = copy_range(f, p + 16, p + 16 + len);
        proof {
            assert(nonce@ =~= f@.subrange(p as int, p + 12));
        }
        self.position = p + 16 + len;
        self.current_chunk_index = self.current_chunk_index + 1;
        Ok(Some(ChunkFormat { nonce, encrypted_data: data }))
    }

    /// Goes back to the first chunk and reads `chunk_index` chunks, so that
    /// the next read returns chunk `chunk_index`. Running out of chunks first
    /// is a `ValidationError`; a record that runs past the end of the file is
    /// the `IoError` of `read_next_chunk`.
    pub fn seek_to_chunk(&mut self, chunk_index: u32) -> (r: Result<(), PipelineError>)
        ensures
            final(self).spec_file() == old(self).spec_file(),
            final(self).spec_header() == old(self).spec_header(),
            final(self).spec_layout() == old(self).spec_layout(),
            match seek_walk(old(self).spec_file(), old(self).spec_header().chunk_count as nat, 0, 0, chunk_index as nat) {
                SeekOutcome::Reached { pos } => {
                    &&& r is Ok
                    &&& final(self).spec_position() == pos
                    &&& final(self).spec_chunk_index() == chunk_index
                },
                SeekOutcome::OutOfBounds { pos, index } => {
                    &&& r matches Err(PipelineError::ValidationError(m)) && m@ == "Chunk index out of bounds"@
                    &&& final(self).spec_position() == pos
                    &&& final(self).spec_chunk_index() == index
                },
                SeekOutcome::Failed { index } => {
                    &&& r matches Err(PipelineError::IoError(m)) && m@ == truncated_chunk_message()
                    &&& final(self).spec_position() == old(self).spec_file().len()
                    &&& final(self).spec_chunk_index() == index
                },
            },
    {
        proof {
            use_type_invariant(&*self);
        }
        self.position = 0;
        self.current_chunk_index = 0;
        let ghost file = self.file@;
        let ghost count = self.header.chunk_count as nat;
        let ghost target = seek_walk(file, count, 0, 0, chunk_index as nat);
        let mut j: u32 = 0;
        while j < chunk_index
            invariant
                self.spec_file() == file,
                self.spec_file() == old(self).spec_file(),
                self.spec_header() == old(self).spec_header(),
                self.spec_layout() == old(self).spec_layout(),
                count == self.spec_header().chunk_count,
                j <= chunk_index,
                self.spec_chunk_index() == j,
                seek_walk(file, count, self.spec_position(), j as nat, chunk_index as nat) == target,
                target == seek_walk(old(self).spec_file(), old(self).spec_header().chunk_count as nat, 0, 0, chunk_index as nat),
            decreases chunk_index - j,
        {
            match self.read_next_chunk() {
                Ok(Some(_)) => {},
                Ok(None) => {
                    return Err(PipelineError::ValidationError(String::from_str("Chunk index out of bounds")));
                },
                Err(e) => {
                    return Err(e);
                },
            }
            j = j + 1;
        }
        Ok(())
    }

    /// Checks the chunk data (everything before the JSON header) against the
    /// header's output checksum, lowercase hexadecimal SHA-256; reading then
    /// starts again from the first chunk.
    pub fn validate_integrity(&mut self) -> (ok: bool)
        requires
            old(self).spec_layout().json_start < sha256_input_limit(),
        ensures
            ok == (old(self).spec_header().output_checksum@ == lower_hex_text(
                sha2_sha256(old(self).spec_file().take(old(self).spec_layout().json_start as int)),
            )),
            final(self).spec_file() == old(self).spec_file(),
            final(self).spec_header() == old(self).spec_header(),
            final(self).spec_layout() == old(self).spec_layout(),
            final(self).spec_position() == 0,
            final(self).spec_chunk_index() == 0,
    {
        proof {
            use_type_invariant(&*self);
        }
        let end = self.layout.json_start;
        let data = copy_range(self.file.as_slice(), 0, end);
        proof {
            assert(data@ =~= self.file@.take(end as int));
        }
        let calculated = sha256_hex(data.as_slice());
        let ok = string_eq(&calculated, &self.header.output_checksum);
        self.position = 0;
        self.current_chunk_index = 0;
        ok
    }
}

/// The message of the error for a chunk that the format cannot hold.
pub open spec fn oversized_chunk_message() -> Seq<char> {
    "Chunk data too large for the .adapipe format"@
}

/// Collects the chunks of an `.adapipe` file in memory until the file is
/// finalized.
#[derive(Debug)]
pub struct BufferedBinaryWriter {
    output_path: String,
    header: FileHeader,
    chunks: Vec<ChunkFormat>,
}

impl BufferedBinaryWriter {
    #[verifier::type_invariant]
    spec fn inv(self) -> bool {
        &&& lengths_fit(self.chunks@)
        &&& stored_size(self.chunks@) <= u64::MAX
    }

    /// The chunks written so far, in order.
    pub closed spec fn spec_chunks(&self) -> Seq<ChunkFormat> {
        self.chunks@
    }

    /// Where the file is to be written.
    pub closed spec fn spec_output_path(&self) -> Seq<char> {
        self.output_path@
    }

    /// The header the writer was created with.
    pub closed spec fn spec_header(&self) -> &FileHeader {
        &self.header
    }

    /// A writer with no chunks yet.
    pub fn new(output_path: String, header: FileHeader) -> (w: Self)
        ensures
            w.spec_chunks() == Seq::<ChunkFormat>::empty(),
            w.spec_output_path() == output_path@,
            *w.spec_header() == header,
    {
        BufferedBinaryWriter { output_path, header, chunks: Vec::new() }
    }

    /// Where the file is to be written.
    pub fn output_path(&self) -> (p: &str)
        ensures
            p@ == self.spec_output_path(),
    {
        self.output_path.as_str()
    }

    /// The header the writer was created with.
    pub fn header(&self) -> (h: &FileHeader)
        ensures
            h == self.spec_header(),
    {
        &self.header
    }

    /// Appends a chunk. A chunk whose data does not fit the 32-bit length
    /// field, or that would take the byte count past `u64::MAX`, is a
    /// `ValidationError` and is not written.
    pub fn write_chunk(&mut self, chunk: ChunkFormat) -> (r: Result<(), PipelineError>)
        ensures
            final(self).spec_output_path() == old(self).spec_output_path(),
            final(self).spec_header() == old(self).spec_header(),
            r is Ok <==> (chunk.encrypted_data@.len() < 0x1_0000_0000 && stored_size(old(self).spec_chunks())
                + chunk.encrypted_data@.len() + 16 <= u64::MAX),
            r is Ok ==> final(self).spec_chunks() == old(self).spec_chunks().push(chunk),
            r matches Err(e) ==> final(self).spec_chunks() == old(self).spec_chunks() && (e matches PipelineError::ValidationError(
                m,
            ) && m@ == oversized_chunk_message()),
    {
        proof {
            use_type_invariant(&*self);
        }
        let len = chunk.encrypted_data.len();
        let total = self.bytes_written();
        if (len as u64) >= 0x1_0000_0000 || total > u64::MAX - 16 || (len as u64) > u64::MAX - 16 - total {
            return Err(PipelineError::ValidationError(String::from_str("Chunk data too large for the .adapipe format")));
        }
        let ghost before = self.chunks@;
        let mut chunks: Vec<ChunkFormat> = Vec::new();
        std::mem::swap(&mut chunks, &mut self.chunks);
        chunks.push(chunk);
        proof {
            assert(chunks@.drop_last() =~= before);
            assert forall|i: int| 0 <= i < chunks@.len() implies #[trigger] chunks@[i].encrypted_data@.len() < 0x1_0000_0000 by {
                if i < before.len() {
                    assert(chunks@[i] == before[i]);
                }
            }
        }
        self.chunks = chunks;
        Ok(())
    }

    /// Appends a chunk; the sequence number plays no part, since chunks are
    /// stored in the order they are written.
    pub fn write_chunk_at_position(&mut self, chunk: ChunkFormat, sequence_number: u64) -> (r: Result<(), PipelineError>)
        ensures
            final(self).spec_output_path() == old(self).spec_output_path(),
            final(self).spec_header() == old(self).spec_header(),
            r is Ok <==> (chunk.encrypted_data@.len() < 0x1_0000_0000 && stored_size(old(self).spec_chunks())
                + chunk.encrypted_data@.len() + 16 <= u64::MAX),
            r is Ok ==> final(self).spec_chunks() == old(self).spec_chunks().push(chunk),
            r matches Err(e) ==> final(self).spec_chunks() == old(self).spec_chunks() && (e matches PipelineError::ValidationError(
                m,
            ) && m@ == oversized_chunk_message()),
    {
        self.write_chunk(chunk)
    }

    /// Bytes the chunks take in the file: their data plus sixteen bytes each.
    pub fn bytes_written(&self) -> (n: u64)
        ensures
            n == stored_size(self.spec_chunks()),
    {
        proof {
            use_type_invariant(self);
        }
        let mut total: u64 = 0;
        let mut i: usize = 0;
        while i < self.chunks.len()
            invariant
                i <= self.chunks@.len(),
                stored_size(self.chunks@) <= u64::MAX,
                total == stored_size(self.chunks@.take(i as int)),
            decreases self.chunks@.len() - i,
        {
            proof {
                let t = self.chunks@.take(i as int + 1);
                assert(t.drop_last() =~= self.chunks@.take(i as int));
                assert(t.last() == self.chunks@[i as int]);
                lemma_stored_size_prefix(self.chunks@, i as int + 1);
            }
            total = total + self.chunks[i].encrypted_data.len() as u64 + 16;
            i = i + 1;
        }
        proof {
            assert(self.chunks@.take(self.chunks@.len() as int) =~= self.chunks@);
        }
        total
    }

    /// How many chunks were written (as a 32-bit count).
    pub fn chunks_written(&self) -> (n: u32)
        ensures
            n == self.spec_chunks().len() as u32,
    {
        self.chunks.len() as u32
    }

    /// Ends the file: returns the chunk data in write order and
    /// `final_header` completed with the chunk count, the current time and
    /// the lowercase hexadecimal SHA-256 of that chunk data. Writing both out,
    /// the header as the footer's JSON, is left to the caller.
    pub fn finalize(self, final_header: FileHeader) -> (r: (Vec<u8>, FileHeader))
        requires
            stored_size(self.spec_chunks()) < sha256_input_limit(),
        ensures
            r.0@ == chunks_stream(self.spec_chunks()),
            r.0@.len() == stored_size(self.spec_chunks()),
            same_fields_but_steps(
                r.1,
                FileHeader {
                    chunk_count: self.spec_chunks().len() as u32,
                    processed_at: r.1.processed_at,
                    output_checksum: r.1.output_checksum,
                    ..final_header
                },
            ),
            r.1.processing_steps == final_header.processing_steps,
            r.1.processed_at >= 0,
            r.1.output_checksum@ == lower_hex_text(sha2_sha256(r.0@)),
    {
        proof {
            use_type_invariant(&self);
            lemma_stored_size_is_stream_len(self.chunks@);
        }
        let mut data: Vec<u8> = Vec::new();
        let mut i: usize = 0;
        while i < self.chunks.len()
            invariant
                i <= self.chunks@.len(),
                lengths_fit(self.chunks@),
                data@ == chunks_stream(self.chunks@.take(i as int)),
            decreases self.chunks@.len() - i,
        {
            let c = &self.chunks[i];
            assert(c.encrypted_data@.len() < 0x1_0000_0000);
            let b = c.to_bytes();
            push_all(&mut data, b.as_slice());
            proof {
                let t = self.chunks@.take(i as int + 1);
                assert(t.drop_last() =~= self.chunks@.take(i as int));
                assert(t.last() == self.chunks@[i as int]);
            }
            i = i + 1;
        }
        proof {
            assert(self.chunks@.take(self.chunks@.len() as int) =~= self.chunks@);
        }
        let checksum = sha256_hex(data.as_slice());
        let mut h = final_header;
        h.chunk_count = self.chunks.len() as u32;
        h.processed_at = now_millis();
        h.output_checksum = checksum;
        (data, h)
    }
}

/// Where and what to write for one chunk of a streamed file.
#[derive(Debug)]
pub struct ChunkPlacement {
    pub position: u64,
    pub bytes: Vec<u8>,
    pub size: u64,
}

/// The bookkeeping of writing an `.adapipe` file chunk by chunk at the
/// chunks' positions: counters, and a running SHA-256 of the chunk bytes in
/// the order they were written.
pub struct StreamingBinaryWriter {
    initial_header: FileHeader,
    hasher: Sha256State,
    bytes_written: u64,
    chunks_written: u64,
    bytes_since_flush: u64,
    flush_interval: u64,
    buffer_size_threshold: u64,
}

impl StreamingBinaryWriter {
    /// The chunk bytes hashed so far, in write order.
    pub closed spec fn spec_hashed(&self) -> Seq<u8> {
        absorbed(self.hasher)
    }

    pub closed spec fn spec_bytes_written(&self) -> u64 {
        self.bytes_written
    }

    pub closed spec fn spec_chunks_written(&self) -> u64 {
        self.chunks_written
    }

    pub closed spec fn spec_bytes_since_flush(&self) -> u64 {
        self.bytes_since_flush
    }

    pub closed spec fn spec_initial_header(&self) -> &FileHeader {
        &self.initial_header
    }

    /// A writer that has written nothing, flushing every 1 MiB with a
    /// 10 MiB buffer threshold.
    pub fn new(header: FileHeader) -> (w: Self)
        ensures
            w.spec_hashed() == Seq::<u8>::empty(),
            w.spec_bytes_written() == 0,
            w.spec_chunks_written() == 0,
            w.spec_bytes_since_flush() == 0,
            *w.spec_initial_header() == header,
    {
        StreamingBinaryWriter {
            initial_header: header,
            hasher: new_hasher(),
            bytes_written: 0,
            chunks_written: 0,
            bytes_since_flush: 0,
            flush_interval: 1048576,
            buffer_size_threshold: 10485760,
        }
    }

    /// Appending chunks in call order is not supported by this writer; it is
    /// an `InvalidConfiguration` error.
    pub fn write_chunk(&mut self, chunk: ChunkFormat) -> (r: Result<(), PipelineError>)
        ensures
            r matches Err(PipelineError::InvalidConfiguration(m)) && m@ == "write_chunk not yet implemented"@,
            final(self).spec_hashed() == old(self).spec_hashed(),
            final(self).spec_bytes_written() == old(self).spec_bytes_written(),
            final(self).spec_chunks_written() == old(self).spec_chunks_written(),
    {
        Err(PipelineError::InvalidConfiguration(String::from_str("write_chunk not yet implemented")))
    }

    /// Says where to write chunk `sequence_number` (at its number times its
    /// stored size) and takes its bytes into the running checksum and the
    /// counters, which wrap at 2^64 like atomic counters' `fetch_add`.
    pub fn write_chunk_at_position(&mut self, chunk: &ChunkFormat, sequence_number: u64) -> (p: ChunkPlacement)
        requires
            chunk.encrypted_data@.len() < 0x1_0000_0000,
            sequence_number * (chunk.encrypted_data@.len() + 16) <= u64::MAX,
            old(self).spec_hashed().len() + chunk.encrypted_data@.len() + 16 < sha256_input_limit(),
        ensures
            p.size == chunk.encrypted_data@.len() + 16,
            p.position == sequence_number * p.size,
            p.bytes@ == chunk_record(chunk.nonce@, chunk.encrypted_data@),
            final(self).spec_hashed() == old(self).spec_hashed() + p.bytes@,
            final(self).spec_bytes_written() == old(self).spec_bytes_written().wrapping_add(p.size),
            final(self).spec_chunks_written() == old(self).spec_chunks_written().wrapping_add(1),
            final(self).spec_bytes_since_flush() == old(self).spec_bytes_since_flush().wrapping_add(p.size),
            final(self).spec_initial_header() == old(self).spec_initial_header(),
    {
        let (bytes, size) = chunk.to_bytes_with_size();
        let position = sequence_number * size;
        hasher_update(&mut self.hasher, bytes.as_slice());
        self.bytes_written = self.bytes_written.wrapping_add(size);
        self.chunks_written = self.chunks_written.wrapping_add(1);
        self.bytes_since_flush = self.bytes_since_flush.wrapping_add(size);
        ChunkPlacement { position, bytes, size }
    }

    /// Bytes written so far.
    pub fn bytes_written(&self) -> (n: u64)
        ensures
            n == self.spec_bytes_written(),
    {
        self.bytes_written
    }

    /// Chunks written so far (as a 32-bit count).
    pub fn chunks_written(&self) -> (n: u32)
        ensures
            n == self.spec_chunks_written() as u32,
    {
        self.chunks_written as u32
    }

    /// Ends the file: `final_header` completed with the chunk count, the
    /// current time and the lowercase hexadecimal SHA-256 of the chunk bytes
    /// in write order. Writing the footer is left to the caller.
    pub fn finalize(self, final_header: FileHeader) -> (h: FileHeader)
        requires
            self.spec_hashed().len() < sha256_input_limit(),
        ensures
            same_fields_but_steps(
                h,
                FileHeader {
                    chunk_count: self.spec_chunks_written() as u32,
                    processed_at: h.processed_at,
                    output_checksum: h.output_checksum,
                    ..final_header
                },
            ),
            h.processing_steps == final_header.processing_steps,
            h.processed_at >= 0,
            h.output_checksum@ == lower_hex_text(sha2_sha256(self.spec_hashed())),
    {
        let digest = hasher_finish(self.hasher);
        let checksum = crate::digest::lower_hex(digest.as_slice());
        let mut h = final_header;
        h.chunk_count = self.chunks_written as u32;
        h.processed_at = now_millis();
        h.output_checksum = checksum;
        h
    }
}

/// The bytes of a whole `.adapipe` file: the chunk data, then the footer for
/// the JSON header in format `version`.
pub fn assemble_file(chunk_data: Vec<u8>, json: &[u8], version: u16) -> (f: Vec<u8>)
    requires
        json@.len() < 0x1_0000_0000,
    ensures
        f@ == chunk_data@ + footer_bytes(json@, version),
{
    let mut f = chunk_data;
    let footer = encode_footer(json, version);
    push_all(&mut f, footer.as_slice());
    f
}

/// What checking an `.adapipe` file found.
#[derive(Debug)]
pub struct ValidationResult {
    pub is_valid: bool,
    pub format_version: u16,
    pub file_size: u64,
    pub chunk_count: u32,
    pub processing_summary: String,
    pub integrity_verified: bool,
    pub errors: Vec<String>,
}

/// Writes and reads `.adapipe` files held in memory.
#[derive(Debug, Clone, Copy)]
pub struct BinaryFormatServiceImpl;

impl BinaryFormatServiceImpl {
    /// The service.
    pub fn new() -> (s: Self) {
        BinaryFormatServiceImpl
    }

    /// A writer for a file at `output_path` with `header`.
    pub fn create_writer(&self, output_path: String, header: FileHeader) -> (w: BufferedBinaryWriter)
        ensures
            w.spec_chunks() == Seq::<ChunkFormat>::empty(),
            w.spec_output_path() == output_path@,
            *w.spec_header() == header,
    {
        BufferedBinaryWriter::new(output_path, header)
    }

    /// A reader for the bytes of a file whose JSON header reads as `header`.
    pub fn create_reader(&self, file_data: Vec<u8>, header: FileHeader) -> (r: Result<StreamingBinaryReader, PipelineError>)
        ensures
            match r {
                Ok(reader) => {
                    &&& footer_layout(file_data@) == Some(reader.spec_layout())
                    &&& reader.spec_file() == file_data@
                    &&& *reader.spec_header() == header
                    &&& reader.spec_position() == 0
                    &&& reader.spec_chunk_index() == 0
                },
                Err(e) => footer_layout(file_data@) is None && (e matches PipelineError::ValidationError(m)
                    && m@ == footer_error_message(file_data@)),
            },
    {
        StreamingBinaryReader::new(file_data, header)
    }

    /// Checks a file: its footer must be well formed; the result reports the
    /// header's format version and chunk count, the file size, the header's
    /// processing summary, and whether the chunk data matches the output
    /// checksum.
    pub fn validate_file(&self, file_data: Vec<u8>, header: FileHeader) -> (r: Result<ValidationResult, PipelineError>)
        requires
            file_data@.len() < sha256_input_limit(),
        ensures
            match r {
                Ok(v) => {
                    &&& footer_layout(file_data@) is Some
                    &&& v.is_valid
                    &&& v.format_version == header.format_version
                    &&& v.file_size == file_data@.len()
                    &&& v.chunk_count == header.chunk_count
                    &&& v.processing_summary@ == header.processing_summary_text()
                    &&& v.integrity_verified == (header.output_checksum@ == lower_hex_text(
                        sha2_sha256(file_data@.take(footer_layout(file_data@)->0.json_start as int)),
                    ))
                    &&& v.errors@.len() == 0
                },
                Err(e) => footer_layout(file_data@) is None && (e matches PipelineError::ValidationError(m)
                    && m@ == footer_error_message(file_data@)),
            },
    {
        let size = file_data.len() as u64;
        let mut reader = self.create_reader(file_data, header)?;
        proof {
            use_type_invariant(&reader);
        }
        let integrity_verified = reader.validate_integrity();
        let h = reader.read_header();
        Ok(ValidationResult {
            is_valid: true,
            format_version: h.format_version,
            file_size: size,
            chunk_count: h.chunk_count,
            processing_summary: h.processing_summary(),
            integrity_verified,
            errors: Vec::new(),
        })
    }
}

/// Something that collects the chunks of an `.adapipe` file.
pub trait BinaryFormatWriter {
    /// Appends a chunk.
    fn write_chunk(&mut self, chunk: ChunkFormat) -> Result<(), PipelineError>;

    /// Bytes the chunks take in the file.
    fn bytes_written(&self) -> u64;

    /// How many chunks were written.
    fn chunks_written(&self) -> u32;
}

impl BinaryFormatWriter for BufferedBinaryWriter {
    fn write_chunk(&mut self, chunk: ChunkFormat) -> (r: Result<(), PipelineError>)
        ensures
            final(self).spec_output_path() == old(self).spec_output_path(),
            final(self).spec_header() == old(self).spec_header(),
            r is Ok <==> (chunk.encrypted_data@.len() < 0x1_0000_0000 && stored_size(old(self).spec_chunks())
                + chunk.encrypted_data@.len() + 16 <= u64::MAX),
            r is Ok ==> final(self).spec_chunks() == old(self).spec_chunks().push(chunk),
            r is Err ==> final(self).spec_chunks() == old(self).spec_chunks(),
    {
        BufferedBinaryWriter::write_chunk(self, chunk)
    }

    fn bytes_written(&self) -> (n: u64)
        ensures
            n == stored_size(self.spec_chunks()),
    {
        BufferedBinaryWriter::bytes_written(self)
    }

    fn chunks_written(&self) -> (n: u32)
        ensures
            n == self.spec_chunks().len() as u32,
    {
        BufferedBinaryWriter::chunks_written(self)
    }
}

/// Something that reads the chunks of an `.adapipe` file in order.
pub trait BinaryFormatReader {
    /// The header the file was opened with.
    fn read_header(&self) -> &FileHeader;

    /// Reads the next chunk, if any.
    fn read_next_chunk(&mut self) -> Result<Option<ChunkFormat>, PipelineError>;

    /// Makes chunk `chunk_index` the next one read.
    fn seek_to_chunk(&mut self, chunk_index: u32) -> Result<(), PipelineError>;
}

impl BinaryFormatReader for StreamingBinaryReader {
    fn read_header(&self) -> (h: &FileHeader)
        ensures
            h == self.spec_header(),
    {
        StreamingBinaryReader::read_header(self)
    }

    fn read_next_chunk(&mut self) -> (r: Result<Option<ChunkFormat>, PipelineError>)
        ensures
            final(self).spec_file() == old(self).spec_file(),
            final(self).spec_header() == old(self).spec_header(),
            old(self).spec_chunk_index() < old(self).spec_header().chunk_count ==> match chunk_step(
                old(self).spec_file(),
                old(self).spec_position(),
            ) {
                ChunkStep::Chunk { nonce, data, next } => r matches Ok(Some(c)) && c.nonce@ == nonce && c.encrypted_data@ == data,
                ChunkStep::End => r matches Ok(None),
                ChunkStep::Truncated => r is Err,
            },
            old(self).spec_chunk_index() >= old(self).spec_header().chunk_count ==> r matches Ok(None),
    {
        StreamingBinaryReader::read_next_chunk(self)
    }

    fn seek_to_chunk(&mut self, chunk_index: u32) -> (r: Result<(), PipelineError>)
        ensures
            final(self).spec_file() == old(self).spec_file(),
            final(self).spec_header() == old(self).spec_header(),
            r is Ok <==> seek_walk(old(self).spec_file(), old(self).spec_header().chunk_count as nat, 0, 0, chunk_index as nat) is Reached,
    {
        StreamingBinaryReader::seek_to_chunk(self, chunk_index)
    }
}

/// Something that makes writers and readers of `.adapipe` files.
pub trait BinaryFormatService {
    /// A writer for a file at `output_path` with `header`.
    fn create_writer(&self, output_path: String, header: FileHeader) -> BufferedBinaryWriter;

    /// A reader for the bytes of a file whose JSON header reads as `header`.
    fn create_reader(&self, file_data: Vec<u8>, header: FileHeader) -> Result<StreamingBinaryReader, PipelineError>;
}

impl BinaryFormatService for BinaryFormatServiceImpl {
    fn create_writer(&self, output_path: String, header: FileHeader) -> (w: BufferedBinaryWriter)
        ensures
            w.spec_chunks() == Seq::<ChunkFormat>::empty(),
            w.spec_output_path() == output_path@,
            *w.spec_header() == header,
    {
        BinaryFormatServiceImpl::create_writer(self, output_path, header)
    }

    fn create_reader(&self, file_data: Vec<u8>, header: FileHeader) -> (r: Result<StreamingBinaryReader, PipelineError>)
        ensures
            r is Ok <==> footer_layout(file_data@) is Some,
            r matches Ok(reader) ==> reader.spec_file() == file_data@ && *reader.spec_header() == header
                && reader.spec_position() == 0 && reader.spec_chunk_index() == 0,
    {
        BinaryFormatServiceImpl::create_reader(self, file_data, header)
    }
}

/// What a reader of a finalized file reads back: the footer is found right
/// after the chunk data, every chunk written is read back in order from the
/// record after the previous one, seeking to any written chunk succeeds, and
/// the integrity check covers exactly the chunk data.
pub proof fn lemma_adapipe_round_trip(cs: Seq<ChunkFormat>, json: Seq<u8>, version: u16, k: nat)
    requires
        lengths_fit(cs),
        json.len() < 0x1_0000_0000,
        version <= CURRENT_FORMAT_VERSION,
        k <= cs.len(),
    ensures
        ({
            let file = chunks_stream(cs) + footer_bytes(json, version);
            &&& footer_layout(file) == Some(
                FooterLayout {
                    json_start: chunks_stream(cs).len() as usize,
                    json_len: json.len() as usize,
                    format_version: version,
                },
            )
            &&& file.subrange(chunks_stream(cs).len() as int, (chunks_stream(cs).len() + json.len()) as int) == json
            &&& file.take(chunks_stream(cs).len() as int) == chunks_stream(cs)
            &&& forall|i: int|
                0 <= i < cs.len() ==> #[trigger] chunk_step(file, chunks_stream(cs.take(i)).len()) == (ChunkStep::Chunk {
                    nonce: cs[i].nonce@,
                    data: cs[i].encrypted_data@,
                    next: chunks_stream(cs.take(i + 1)).len(),
                })
            &&& seek_walk(file, cs.len(), 0, 0, k) == (SeekOutcome::Reached {
                pos: chunks_stream(cs.take(k as int)).len(),
            })
        }),
{
    let s = chunks_stream(cs);
    let rest = footer_bytes(json, version);
    let file = s + rest;
    lemma_footer_round_trip(s, json, version);
    assert(file.take(s.len() as int) =~= s);
    assert forall|i: int| 0 <= i < cs.len() implies #[trigger] chunk_step(file, chunks_stream(cs.take(i)).len()) == (ChunkStep::Chunk {
        nonce: cs[i].nonce@,
        data: cs[i].encrypted_data@,
        next: chunks_stream(cs.take(i + 1)).len(),
    }) by {
        lemma_chunk_step_reads_back(cs, rest, i);
    }
    lemma_seek_walk_reaches(cs, rest, 0, k);
    assert(cs.take(0) =~= Seq::<ChunkFormat>::empty());
}

/// From the record of chunk `j`, seeking on to chunk `k` passes over the
/// records of chunks `j` to `k - 1`.
proof fn lemma_seek_walk_reaches(cs: Seq<ChunkFormat>, rest: Seq<u8>, j: nat, k: nat)
    requires
        lengths_fit(cs),
        j <= k <= cs.len(),
    ensures
        seek_walk(chunks_stream(cs) + rest, cs.len(), chunks_stream(cs.take(j as int)).len(), j, k) == (SeekOutcome::Reached {
            pos: chunks_stream(cs.take(k as int)).len(),
        }),
    decreases k - j,
{
    if j < k {
        lemma_chunk_step_reads_back(cs, rest, j as int);
        lemma_seek_walk_reaches(cs, rest, j + 1, k);
    }
}

/// The integrity check of a finalized file hashes exactly the chunk data
/// the writer hashed, so it accepts the checksum the writer recorded.
pub proof fn lemma_written_file_passes_integrity(cs: Seq<ChunkFormat>, json: Seq<u8>, version: u16)
    requires
        lengths_fit(cs),
        chunks_stream(cs).len() <= usize::MAX,
        json.len() < 0x1_0000_0000,
        version <= CURRENT_FORMAT_VERSION,
    ensures
        ({
            let file = chunks_stream(cs) + footer_bytes(json, version);
            &&& footer_layout(file) is Some
            &&& lower_hex_text(sha2_sha256(file.take(footer_layout(file)->0.json_start as int)))
                == lower_hex_text(sha2_sha256(chunks_stream(cs)))
        }),
{
    lemma_adapipe_round_trip(cs, json, version, 0);
}

} // verus!
