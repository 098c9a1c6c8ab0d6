use vstd::prelude::*;
use crate::text::string_from_chars;

verus! {

/// The largest input, in bytes, that the SHA-256 implementations hash without
/// overflowing their 64-bit bit count.
pub open spec fn sha256_input_limit() -> nat {
    0x2000_0000_0000_0000
}

/// What `sha2::Sha256::digest` returns for a byte sequence.
pub uninterp spec fn sha2_sha256(data: Seq<u8>) -> Seq<u8>;

/// What `ring::digest::digest(&SHA256, ..)` returns for a byte sequence.
pub uninterp spec fn ring_sha256(data: Seq<u8>) -> Seq<u8>;

/// Calls `sha2::Sha256::digest`.
///
/// Trusted: the result is the crate's SHA-256 of `data`, named
/// `sha2_sha256`, and is 32 bytes long (the output size `U32` of `Sha256`).
/// Inputs of 2^61 bytes or more would overflow the bit count and are left out.
#[verifier::external_body]
pub(crate) fn sha256_bytes(data: &[u8]) -> (d: Vec<u8>)
    requires
        data@.len() < sha256_input_limit(),
    ensures
        d@ == sha2_sha256(data@),
        d@.len() == 32,
{
    <sha2::Sha256 as sha2::Digest>::digest(data).to_vec()
}

/// Calls `ring::digest::digest` with `ring::digest::SHA256`.
///
/// Trusted: the result is ring's SHA-256 of `data`, named `ring_sha256`, and
/// is 32 bytes long (`SHA256.output_len()`). It also equals what `sha2`
/// computes for `data`: ring documents `SHA256` as SHA-256 as specified in
/// FIPS 180-4, and `sha2` documents `Sha256` as the SHA-256 hasher of the
/// SHA-2 standard; the function is deterministic. Inputs too long for the algorithm make ring panic and are
/// left out.
#[verifier::external_body]
pub(crate) fn ring_sha256_bytes(data: &[u8]) -> (d: Vec<u8>)
    requires
        data@.len() < sha256_input_limit(),
    ensures
        d@ == ring_sha256(data@),
        d@ == sha2_sha256(data@),
        d@.len() == 32,
{
    ring::digest::digest(&ring::digest::SHA256, data).as_ref().to_vec()
}

/// The lowercase hexadecimal digit for a value below sixteen.
pub open spec fn hex_char(d: nat) -> char {
    if d < 10 {
        (('0' as nat) + d) as char
    } else {
        (('a' as nat) + d - 10) as char
    }
}

/// Lowercase hexadecimal text of bytes: two digits per byte, high nibble
/// first.
pub open spec fn lower_hex_text(b: Seq<u8>) -> Seq<char>
    decreases b.len(),
{
    if b.len() == 0 {
        Seq::empty()
    } else {
        lower_hex_text(b.drop_last()) + seq![hex_char((b.last() / 16) as nat), hex_char((b.last() % 16) as nat)]
    }
}

/// The hexadecimal digit for a value below sixteen.
fn hex_digit(d: u8) -> (c: char)
    requires
        d < 16,
    ensures
        c == hex_char(d as nat),
{
    match d {
        0 => '0',
        1 => '1',
        2 => '2',
        3 => '3',
        4 => '4',
        5 => '5',
        6 => '6',
        7 => '7',
        8 => '8',
        9 => '9',
        10 => 'a',
        11 => 'b',
        12 => 'c',
        13 => 'd',
        14 => 'e',
        _ => 'f',
    }
}

/// Lowercase hexadecimal text of bytes, as `{:x}` formats a digest.
pub fn lower_hex(bytes: &[u8]) -> (s: String)
    ensures
        s@ == lower_hex_text(bytes@),
        s@.len() == 2 * bytes@.len(),
{
    let mut out: Vec<char> = Vec::new();
    let mut i: usize = 0;
    while i < bytes.len()
        invariant
            i <= bytes@.len(),
            out@ == lower_hex_text(bytes@.take(i as int)),
            out@.len() == 2 * i,
        decreases bytes@.len() - i,
    {
        let b = bytes[i];
        out.push(hex_digit(b / 16));
        out.push(hex_digit(b % 16));
        proof {
            let t = bytes@.take(i as int + 1);
            assert(t.drop_last() =~= bytes@.take(i as int));
            assert(t.last() == b);
        }
        i = i + 1;
    }
    proof {
        assert(bytes@.take(bytes@.len() as int) =~= bytes@);
    }
    string_from_chars(out)
}

/// The SHA-256 digest of `data` (through `sha2`) as lowercase hexadecimal.
pub fn sha256_hex(data: &[u8]) -> (s: String)
    requires
        data@.len() < sha256_input_limit(),
    ensures
        s@ == lower_hex_text(sha2_sha256(data@)),
        s@.len() == 64,
{
    let d = sha256_bytes(data);
    lower_hex(d.as_slice())
}

/// The SHA-256 digest of `data` (through `ring`) as lowercase hexadecimal;
/// the same text as `sha256_hex` gives.
pub fn ring_sha256_hex(data: &[u8]) -> (s: String)
    requires
        data@.len() < sha256_input_limit(),
    ensures
        s@ == lower_hex_text(ring_sha256(data@)),
        s@ == lower_hex_text(sha2_sha256(data@)),
        s@.len() == 64,
{
    let d = ring_sha256_bytes(data);
    lower_hex(d.as_slice())
}

/// Different byte sequences of one length have different hexadecimal texts.
pub proof fn lemma_lower_hex_injective(a: Seq<u8>, b: Seq<u8>)
    requires
        a.len() == b.len(),
        lower_hex_text(a) == lower_hex_text(b),
    ensures
        a == b,
    decreases a.len(),
{
    if a.len() > 0 {
        let ta = lower_hex_text(a.drop_last());
        let tb = lower_hex_text(b.drop_last());
        lemma_lower_hex_len(a.drop_last());
        lemma_lower_hex_len(b.drop_last());
        let n = ta.len();
        let x = a.last();
        let y = b.last();
        let xs = seq![hex_char((x / 16) as nat), hex_char((x % 16) as nat)];
        let ys = seq![hex_char((y / 16) as nat), hex_char((y % 16) as nat)];
        assert(lower_hex_text(a) == ta + xs);
        assert(lower_hex_text(b) == tb + ys);
        assert((ta + xs)[n as int] == xs[0]);
        assert((tb + ys)[n as int] == ys[0]);
        assert((ta + xs)[n as int + 1] == xs[1]);
        assert((tb + ys)[n as int + 1] == ys[1]);
        assert(xs[0] == ys[0]);
        assert(xs[1] == ys[1]);
        assert(lower_hex_text(a).take(n as int) =~= ta);
        assert(lower_hex_text(b).take(n as int) =~= tb);
        lemma_lower_hex_injective(a.drop_last(), b.drop_last());
        lemma_hex_char_injective((x / 16) as nat, (y / 16) as nat);
        lemma_hex_char_injective((x % 16) as nat, (y % 16) as nat);
        assert(x == y) by (nonlinear_arith)
            requires
                x / 16 == y / 16,
                x % 16 == y % 16,
        ;
        assert(a =~= a.drop_last().push(x));
        assert(b =~= b.drop_last().push(y));
    }
}

/// Distinct digit values below sixteen have distinct hexadecimal digits.
proof fn lemma_hex_char_injective(d: nat, e: nat)
    requires
        d < 16,
        e < 16,
        hex_char(d) == hex_char(e),
    ensures
        d == e,
{
    assert(hex_char(d) as nat == if d < 10 { 48 + d } else { 87 + d });
    assert(hex_char(e) as nat == if e < 10 { 48 + e } else { 87 + e });
}

/// The hexadecimal text has two characters per byte.
pub proof fn lemma_lower_hex_len(b: Seq<u8>)
    ensures
        lower_hex_text(b).len() == 2 * b.len(),
    decreases b.len(),
{
    if b.len() > 0 {
        lemma_lower_hex_len(b.drop_last());
    }
}

/// A running SHA-256 computation: a `sha2::Sha256` hasher, which Verus
/// cannot declare (the name stands for a generic wrapper type), held out of
/// its sight.
#[verifier::external_body]
pub struct Sha256State {
    inner: sha2::Sha256,
}

/// The bytes a running SHA-256 computation has taken in so far.
pub uninterp spec fn absorbed(h: Sha256State) -> Seq<u8>;

/// Calls `sha2::Sha256::new` (through `Digest::new`).
///
/// Trusted: a new hasher has taken in nothing.
#[verifier::external_body]
pub(crate) fn new_hasher() -> (h: Sha256State)
    ensures
        absorbed(h) == Seq::<u8>::empty(),
{
    Sha256State { inner: <sha2::Sha256 as sha2::Digest>::new() }
}

/// Calls `Digest::update` on a `sha2::Sha256`.
///
/// Trusted: the hasher has taken in `data` after what it held; hashing is
/// incremental, so the final digest is that of everything taken in.
#[verifier::external_body]
pub(crate) fn hasher_update(h: &mut Sha256State, data: &[u8])
    ensures
        absorbed(*final(h)) == absorbed(*old(h)) + data@,
{
    sha2::Digest::update(&mut h.inner, data);
}

/// Calls `Digest::finalize` on a `sha2::Sha256`.
///
/// Trusted: the result is the SHA-256 of everything the hasher took in (the
/// digest `sha2::Sha256::digest` gives for those bytes at once), 32 bytes
/// long. Inputs of 2^61 bytes or more are left out.
#[verifier::external_body]
pub(crate) fn hasher_finish(h: Sha256State) -> (d: Vec<u8>)
    requires
        absorbed(h).len() < sha256_input_limit(),
    ensures
        d@ == sha2_sha256(absorbed(h)),
        d@.len() == 32,
{
    sha2::Digest::finalize(h.inner).to_vec()
}

} // verus!
