//! SHA-256 digests and their hexadecimal text.

use sha2::Digest;
use sha2::Sha256;

use vstd::prelude::*;

use crate::text::push_char;

verus! {

/// The SHA-256 digest of a byte sequence.
pub uninterp spec fn sha256(data: Seq<u8>) -> Seq<u8>;

/// SHA-256 of `data` (`sha2::Sha256::digest`): the named digest, 32 bytes long.
#[verifier::external_body]
fn sha256_bytes(data: &[u8]) -> (r: Vec<u8>)
    ensures
        r@ == sha256(data@),
        r@.len() == 32,
{
    Sha256::digest(data).to_vec()
}

/// The SHA-256 digest of `data`.
pub fn digest(data: &Vec<u8>) -> (r: Vec<u8>)
    ensures
        r@ == sha256(data@),
        r@.len() == 32,
{
    sha256_bytes(data.as_slice())
}

/// `sha2::Sha256`, the incremental SHA-256 hasher, held opaque: Verus
/// refuses a declaration of the type itself (an alias of a generic
/// wrapper with type-level numbers).
#[verifier::external_body]
pub struct Sha256State {
    inner: Sha256,
}

/// The bytes a hasher has taken in so far: `sha2`'s hasher keeps, as its
/// state, what its input so far determines.
pub uninterp spec fn sha256_input(state: Sha256State) -> Seq<u8>;

/// A fresh hasher (`Sha256::new`): it has taken in nothing.
#[verifier::external_body]
fn sha256_start() -> (r: Sha256State)
    ensures
        sha256_input(r) == Seq::<u8>::empty(),
{
    Sha256State { inner: Sha256::new() }
}

/// Feeds bytes to a hasher (`Digest::update`): they follow what it took
/// in before.
#[verifier::external_body]
fn sha256_absorb(state: &mut Sha256State, chunk: &[u8])
    ensures
        sha256_input(*final(state)) == sha256_input(*old(state)) + chunk@,
{
    state.inner.update(chunk);
}

/// Ends a hasher (`Digest::finalize`): the SHA-256 of all it took in,
/// 32 bytes.
#[verifier::external_body]
fn sha256_end(state: Sha256State) -> (r: Vec<u8>)
    ensures
        r@ == sha256(sha256_input(state)),
        r@.len() == 32,
{
    state.inner.finalize().to_vec()
}

/// A SHA-256 digest computed from input that arrives in pieces.
pub struct StreamDigest {
    state: Sha256State,
}

impl StreamDigest {
    /// The bytes fed so far.
    pub closed spec fn fed(&self) -> Seq<u8> {
        sha256_input(self.state)
    }

    /// A digest that has been fed nothing.
    pub fn new() -> (r: Self)
        ensures
            r.fed() == Seq::<u8>::empty(),
    {
        StreamDigest { state: sha256_start() }
    }

    /// Feeds the next piece of input.
    pub fn update(&mut self, chunk: &[u8])
        ensures
            final(self).fed() == old(self).fed() + chunk@,
    {
        sha256_absorb(&mut self.state, chunk);
    }

    /// The SHA-256 of everything fed.
    pub fn finish(self) -> (r: Vec<u8>)
        ensures
            r@ == sha256(self.fed()),
            r@.len() == 32,
    {
        sha256_end(self.state)
    }

    /// The SHA-256 of everything fed, as lowercase hexadecimal text.
    pub fn finish_hex(self) -> (r: String)
        ensures
            r@ == hex(sha256(self.fed())),
    {
        let bytes = self.finish();
        hex_lower(&bytes)
    }
}

/// The lowercase hexadecimal digit for `d < 16`.
pub open spec fn hex_digit(d: nat) -> char {
    if d < 10 {
        ((d + 48) as u32) as char
    } else {
        ((d + 87) as u32) as char
    }
}

/// Two lowercase hexadecimal digits per byte, as `{:02x}` prints them.
pub open spec fn hex(bytes: Seq<u8>) -> Seq<char>
    decreases bytes.len(),
{
    if bytes.len() == 0 {
        Seq::empty()
    } else {
        hex(bytes.drop_last()) + seq![
            hex_digit((bytes.last() / 16) as nat),
            hex_digit((bytes.last() % 16) as nat),
        ]
    }
}

fn hex_char(d: u8) -> (c: char)
    requires
        d < 16,
    ensures
        c == hex_digit(d as nat),
{
    if d < 10 {
        let b: u8 = d + 48;
        b as char
    } else {
        let b: u8 = d + 87;
        b as char
    }
}

/// The lowercase hexadecimal text of `bytes`.
pub fn hex_lower(bytes: &Vec<u8>) -> (r: String)
    ensures
        r@ == hex(bytes@),
        r@.len() == 2 * bytes@.len(),
{
    let mut s = String::new();
    let mut i: usize = 0;
    while i < bytes.len()
        invariant
            i <= bytes.len(),
            s@ == hex(bytes@.take(i as int)),
            s@.len() == 2 * i,
        decreases bytes.len() - i,
    {
        let b = bytes[i];
        push_char(&mut s, hex_char(b / 16));
        push_char(&mut s, hex_char(b % 16));
        assert(bytes@.take(i + 1).drop_last() =~= bytes@.take(i as int));
        assert(s@ =~= hex(bytes@.take(i + 1)));
        i = i + 1;
    }
    assert(bytes@.take(bytes.len() as int) =~= bytes@);
    s
}

/// The SHA-256 digest of `data` in lowercase hexadecimal.
pub fn sha256_hex(data: &Vec<u8>) -> (r: String)
    ensures
        r@ == hex(sha256(data@)),
        r@.len() == 64,
{
    let d = digest(data);
    hex_lower(&d)
}

// ---------------------------------------------------------------------
// Little-endian integers
// ---------------------------------------------------------------------

/// The `width` low bytes of `n`, least significant first.
pub open spec fn le_bytes(n: nat, width: nat) -> Seq<u8>
    decreases width,
{
    if width == 0 {
        Seq::empty()
    } else {
        seq![(n % 256) as u8] + le_bytes(n / 256, (width - 1) as nat)
    }
}

/// `u64::to_le_bytes`.
pub open spec fn le_u64(v: u64) -> Seq<u8> {
    le_bytes(v as nat, 8)
}

/// `i64::to_le_bytes`: the two's-complement bytes.
pub open spec fn le_i64(v: i64) -> Seq<u8> {
    if v >= 0 {
        le_bytes(v as nat, 8)
    } else {
        le_bytes((v + 0x1_0000_0000_0000_0000) as nat, 8)
    }
}

proof fn lemma_le_bytes_step(n: nat, width: nat)
    requires
        width > 0,
    ensures
        le_bytes(n, width) == seq![(n % 256) as u8] + le_bytes(n / 256, (width - 1) as nat),
{
}

/// Appends the little-endian bytes of `v` to `out`.
pub fn push_le_u64(out: &mut Vec<u8>, v: u64)
    ensures
        final(out)@ == old(out)@ + le_u64(v),
{
    let ghost start = out@;
    let mut x: u64 = v;
    let mut k: usize = 0;
    while k < 8
        invariant
            k <= 8,
            out@ + le_bytes(x as nat, (8 - k) as nat) == start + le_bytes(v as nat, 8),
        decreases 8 - k,
    {
        proof {
            lemma_le_bytes_step(x as nat, (8 - k) as nat);
        }
        let ghost before = out@;
        out.push((x % 256) as u8);
        assert(out@ + le_bytes((x / 256) as nat, (8 - (k + 1)) as nat) =~= before + le_bytes(
            x as nat,
            (8 - k) as nat,
        ));
        x = x / 256;
        k = k + 1;
    }
    assert(le_bytes(x as nat, 0) =~= Seq::<u8>::empty());
    assert(out@ =~= start + le_u64(v));
}

/// Appends the little-endian two's-complement bytes of `v` to `out`.
pub fn push_le_i64(out: &mut Vec<u8>, v: i64)
    ensures
        final(out)@ == old(out)@ + le_i64(v),
{
    if v >= 0 {
        push_le_u64(out, v as u64);
    } else {
        let shifted: i64 = v + i64::MAX + 1;
        let w: u64 = (shifted as u64) + 0x8000_0000_0000_0000u64;
        assert(w == v + 0x1_0000_0000_0000_0000);
        push_le_u64(out, w);
    }
}

/// Appends the UTF-8 bytes of `s` to `out`.
pub fn push_str_bytes(out: &mut Vec<u8>, s: &str)
    ensures
        final(out)@ == old(out)@ + vstd::utf8::encode_utf8(s@),
{
    let b = s.as_bytes();
    let ghost start = out@;
    let mut i: usize = 0;
    while i < b.len()
        invariant
            i <= b.len(),
            b@ == vstd::utf8::encode_utf8(s@),
            out@ == start + b@.take(i as int),
        decreases b.len() - i,
    {
        out.push(b[i]);
        assert(start + b@.take(i + 1) =~= (start + b@.take(i as int)).push(b@[i as int]));
        i = i + 1;
    }
    assert(b@.take(b.len() as int) =~= b@);
}

} // verus!
