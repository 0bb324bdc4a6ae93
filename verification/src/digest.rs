//! The digest sink: a write-through decorator over a byte buffer.

use sha2::Digest;
use sha2::Sha256;
use sha2::Sha512;
use vstd::prelude::*;

verus! {

/// Supported digest algorithms.
#[derive(Debug, Clone, Copy, PartialEq, Eq, Structural)]
pub enum DigestAlgorithm {
    /// SHA-256: 32 bytes, 64 hexadecimal digits.
    Sha256,
    /// SHA-512: 64 bytes, 128 hexadecimal digits.
    Sha512,
}

/// The SHA-256 hasher of the `sha2` crate, carried through as an opaque value.
#[verifier::external_type_specification]
#[verifier::external_body]
pub struct ExSha256(Sha256);

/// The SHA-512 hasher of the `sha2` crate, carried through as an opaque value.
#[verifier::external_type_specification]
#[verifier::external_body]
pub struct ExSha512(Sha512);

/// The bytes a SHA-256 hasher has been fed since it was made, in order.
pub uninterp spec fn sha256_absorbed(h: Sha256) -> Seq<u8>;

/// The bytes a SHA-512 hasher has been fed since it was made, in order.
pub uninterp spec fn sha512_absorbed(h: Sha512) -> Seq<u8>;

/// The SHA-256 digest of `data`.
pub uninterp spec fn sha256(data: Seq<u8>) -> Seq<u8>;

/// The SHA-512 digest of `data`.
pub uninterp spec fn sha512(data: Seq<u8>) -> Seq<u8>;

/// `sha2::Sha256::new` (from `Digest`): a hasher that has been fed nothing.
#[verifier::external_body]
fn sha256_new() -> (h: Sha256)
    ensures
        sha256_absorbed(h) == Seq::<u8>::empty(),
{
    Sha256::new()
}

/// `Digest::update` on a `Sha256`: the hasher has been fed `data` after what
/// it had been fed before. Trusted: feeding in pieces is feeding the whole.
#[verifier::external_body]
fn sha256_update(h: &mut Sha256, data: &[u8])
    ensures
        sha256_absorbed(*final(h)) == sha256_absorbed(*old(h)) + data@,
{
    h.update(data)
}

/// `Digest::finalize` on a `Sha256`: the 32-byte SHA-256 digest of all the
/// hasher has been fed.
#[verifier::external_body]
fn sha256_finalize(h: Sha256) -> (out: Vec<u8>)
    ensures
        out@ == sha256(sha256_absorbed(h)),
        out@.len() == 32,
{
    h.finalize().to_vec()
}

/// `sha2::Sha512::new` (from `Digest`): a hasher that has been fed nothing.
#[verifier::external_body]
fn sha512_new() -> (h: Sha512)
    ensures
        sha512_absorbed(h) == Seq::<u8>::empty(),
{
    Sha512::new()
}

/// `Digest::update` on a `Sha512`: the hasher has been fed `data` after what
/// it had been fed before. Trusted: feeding in pieces is feeding the whole.
#[verifier::external_body]
fn sha512_update(h: &mut Sha512, data: &[u8])
    ensures
        sha512_absorbed(*final(h)) == sha512_absorbed(*old(h)) + data@,
{
    h.update(data)
}

/// `Digest::finalize` on a `Sha512`: the 64-byte SHA-512 digest of all the
/// hasher has been fed.
#[verifier::external_body]
fn sha512_finalize(h: Sha512) -> (out: Vec<u8>)
    ensures
        out@ == sha512(sha512_absorbed(h)),
        out@.len() == 64,
{
    h.finalize().to_vec()
}

/// The lowercase hexadecimal digit for `n`, which is below 16.
pub open spec fn hex_digit(n: u8) -> char {
    if n < 10 {
        (0x30 + n) as char
    } else {
        (0x61 + (n - 10)) as char
    }
}

/// `data` in lowercase hexadecimal, two digits per byte, high digit first.
pub open spec fn hex_lower(data: Seq<u8>) -> Seq<char> {
    Seq::new(
        2 * data.len(),
        |i: int|
            if i % 2 == 0 {
                hex_digit(data[i / 2] / 16)
            } else {
                hex_digit(data[i / 2] % 16)
            },
    )
}

/// `hex::encode`: each byte as two lowercase hexadecimal digits, high digit
/// first.
#[verifier::external_body]
fn hex_encode(data: &[u8]) -> (s: String)
    ensures
        s@ == hex_lower(data@),
{
    hex::encode(data)
}

/// The digest of `data` under `algorithm`, in lowercase hexadecimal.
pub open spec fn digest_hex(algorithm: DigestAlgorithm, data: Seq<u8>) -> Seq<char> {
    match algorithm {
        DigestAlgorithm::Sha256 => hex_lower(sha256(data)),
        DigestAlgorithm::Sha512 => hex_lower(sha512(data)),
    }
}

/// Number of hexadecimal digits in a digest under `algorithm`.
pub open spec fn digest_hex_len(algorithm: DigestAlgorithm) -> nat {
    match algorithm {
        DigestAlgorithm::Sha256 => 64,
        DigestAlgorithm::Sha512 => 128,
    }
}

/// A live hasher of one of the supported algorithms.
pub enum DigestState {
    Sha256(Sha256),
    Sha512(Sha512),
}

impl DigestState {
    /// The algorithm of this hasher.
    pub open spec fn algorithm(self) -> DigestAlgorithm {
        match self {
            DigestState::Sha256(_) => DigestAlgorithm::Sha256,
            DigestState::Sha512(_) => DigestAlgorithm::Sha512,
        }
    }

    /// The bytes this hasher has been fed, in order.
    pub open spec fn absorbed(self) -> Seq<u8> {
        match self {
            DigestState::Sha256(h) => sha256_absorbed(h),
            DigestState::Sha512(h) => sha512_absorbed(h),
        }
    }

    /// A hasher of `algorithm` that has been fed nothing.
    pub fn new(algorithm: DigestAlgorithm) -> (state: Self)
        ensures
            state.algorithm() == algorithm,
            state.absorbed() == Seq::<u8>::empty(),
    {
        match algorithm {
            DigestAlgorithm::Sha256 => DigestState::Sha256(sha256_new()),
            DigestAlgorithm::Sha512 => DigestState::Sha512(sha512_new()),
        }
    }

    /// Feeds `buf` to the hasher.
    pub fn update(&mut self, buf: &[u8])
        ensures
            final(self).algorithm() == old(self).algorithm(),
            final(self).absorbed() == old(self).absorbed() + buf@,
    {
        match self {
            DigestState::Sha256(h) => sha256_update(h, buf),
            DigestState::Sha512(h) => sha512_update(h, buf),
        }
    }

    /// Ends the hasher and returns the digest of all it was fed, in
    /// lowercase hexadecimal.
    pub fn finalize(self) -> (hex: String)
        ensures
            hex@ == digest_hex(self.algorithm(), self.absorbed()),
            hex@.len() == digest_hex_len(self.algorithm()),
    {
        match self {
            DigestState::Sha256(h) => {
                let raw = sha256_finalize(h);
                hex_encode(raw.as_slice())
            },
            DigestState::Sha512(h) => {
                let raw = sha512_finalize(h);
                hex_encode(raw.as_slice())
            },
        }
    }
}

/// A sink that forwards every write to a byte buffer and, unless it is
/// transparent, feeds the same bytes to a hasher first.
pub struct DigestWriter<'a> {
    /// The wrapped destination.
    pub inner: &'a mut Vec<u8>,
    /// The live hasher; `None` in a transparent writer.
    pub state: Option<DigestState>,
}

impl<'a> DigestWriter<'a> {
    /// The contents of the wrapped destination.
    pub open spec fn written(&self) -> Seq<u8> {
        (*self.inner)@
    }

    /// The algorithm of the digest, if one is computed.
    pub open spec fn algorithm(&self) -> Option<DigestAlgorithm> {
        match self.state {
            Some(state) => Some(state.algorithm()),
            None => None,
        }
    }

    /// The bytes folded into the digest so far; empty in a transparent
    /// writer.
    pub open spec fn digested(&self) -> Seq<u8> {
        match self.state {
            Some(state) => state.absorbed(),
            None => Seq::empty(),
        }
    }

    /// Whether this writer is `before` after `bytes` were written through
    /// it: the destination and, where there is one, the digest have both
    /// grown by `bytes`.
    pub open spec fn fed(&self, before: &Self, bytes: Seq<u8>) -> bool {
        &&& self.written() =~= before.written() + bytes
        &&& self.algorithm() == before.algorithm()
        &&& self.digested() =~= if before.state is Some {
            before.digested() + bytes
        } else {
            Seq::empty()
        }
    }

    /// The digest that `finalize` returns for this writer.
    pub open spec fn digest(&self) -> Option<Seq<char>> {
        match self.state {
            Some(state) => Some(digest_hex(state.algorithm(), state.absorbed())),
            None => None,
        }
    }

    /// Wraps `inner` with a fresh hasher of `algorithm`.
    pub fn new(inner: &'a mut Vec<u8>, algorithm: DigestAlgorithm) -> (w: Self)
        ensures
            w.written() == old(inner)@,
            w.algorithm() == Some(algorithm),
            w.digested() == Seq::<u8>::empty(),
            *final(w.inner) == *final(inner),
    {
        DigestWriter { inner, state: Some(DigestState::new(algorithm)) }
    }

    /// Wraps `inner` without a hasher: writes pass through and no digest
    /// is computed.
    pub fn transparent(inner: &'a mut Vec<u8>) -> (w: Self)
        ensures
            w.written() == old(inner)@,
            w.algorithm() is None,
            *final(w.inner) == *final(inner),
    {
        DigestWriter { inner, state: None }
    }

    /// Feeds `buf` to the hasher, then appends it to the destination.
    /// Returns the number of bytes the destination took, which is all of
    /// them.
    pub fn write(&mut self, buf: &[u8]) -> (n: usize)
        ensures
            n == buf@.len(),
            final(self).fed(old(self), buf@),
            *final(final(self).inner) == *final(old(self).inner),
    {
        match &mut self.state {
            Some(state) => {
                state.update(buf);
            },
            None => {},
        }
        self.inner.extend_from_slice(buf);
        buf.len()
    }

    /// Does nothing: the destination is a buffer in memory.
    pub fn flush(&mut self)
        ensures
            *final(self) == *old(self),
    {
    }

    /// Ends the writer. Returns the digest of every byte written through
    /// it, in lowercase hexadecimal, or `None` if it was transparent. The
    /// destination keeps what was written.
    pub fn finalize(self) -> (hex: Option<String>)
        ensures
            match hex {
                Some(s) => self.digest() == Some(s@) && self.algorithm() is Some && s@.len()
                    == digest_hex_len(self.algorithm()->0),
                None => self.digest() is None,
            },
            *final(self.inner) == *old(self.inner),
    {
        match self.state {
            Some(state) => Some(state.finalize()),
            None => None,
        }
    }
}

} // verus!
