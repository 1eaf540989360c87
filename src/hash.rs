//! The hash accumulator behind every digest of the ledger.
use vstd::prelude::*;

verus! {

/// Size in bytes of a digest.
pub const HASH256_BYTES: usize = 32;

/// The Blake2s-256 digest of a byte sequence.
pub uninterp spec fn blake2s_256(data: Seq<u8>) -> Seq<u8>;

/// Relies on blake2's `Blake2s256` (through `Digest::digest`): the 32-byte
/// Blake2s digest of `data`, which depends on `data` alone.
#[verifier::external_body]
fn blake2s_digest(data: &[u8]) -> (r: [u8; 32])
    ensures
        r@ == blake2s_256(data@),
{
    let out = <blake2::Blake2s256 as blake2::Digest>::digest(data);
    out.into()
}

/// The four little-endian bytes of `n`.
pub open spec fn le_u32(n: u32) -> Seq<u8> {
    seq![
        (n % 0x100) as u8,
        ((n / 0x100) % 0x100) as u8,
        ((n / 0x1_0000) % 0x100) as u8,
        ((n / 0x100_0000) % 0x100) as u8,
    ]
}

/// The eight little-endian bytes of `n`.
pub open spec fn le_u64(n: u64) -> Seq<u8> {
    le_u32((n % 0x1_0000_0000) as u32) + le_u32((n / 0x1_0000_0000) as u32)
}

/// A streaming accumulator: bytes written to it, in order, are the input of
/// the digest that `finalize` produces.
pub struct Hash256 {
    pending: Vec<u8>,
}

impl View for Hash256 {
    type V = Seq<u8>;

    /// The bytes written since creation or the last reset.
    closed spec fn view(&self) -> Seq<u8> {
        self.pending@
    }
}

impl Hash256 {
    /// A fresh accumulator that has consumed no bytes.
    pub fn new() -> (h: Hash256)
        ensures
            h@ == Seq::<u8>::empty(),
    {
        Hash256 { pending: Vec::new() }
    }

    /// Appends `buf` to the digest input.
    pub fn write(&mut self, buf: &[u8])
        ensures
            final(self)@ == old(self)@ + buf@,
    {
        let mut i: usize = 0;
        while i < buf.len()
            invariant
                i <= buf@.len(),
                self@ == old(self)@ + buf@.subrange(0, i as int),
            decreases buf@.len() - i,
        {
            self.pending.push(buf[i]);
            i = i + 1;
            assert(buf@.subrange(0, i as int) =~= buf@.subrange(0, i - 1 as int).push(buf@[i - 1]));
        }
        assert(buf@.subrange(0, i as int) =~= buf@);
    }

    /// Appends the four little-endian bytes of `n`.
    pub fn write_u32_le(&mut self, n: u32)
        ensures
            final(self)@ == old(self)@ + le_u32(n),
    {
        let bytes: [u8; 4] = [
            (n % 0x100) as u8,
            ((n / 0x100) % 0x100) as u8,
            ((n / 0x1_0000) % 0x100) as u8,
            ((n / 0x100_0000) % 0x100) as u8,
        ];
        self.write(&bytes);
        assert(bytes@ =~= le_u32(n));
    }

    /// Appends the eight little-endian bytes of `n`.
    pub fn write_u64_le(&mut self, n: u64)
        ensures
            final(self)@ == old(self)@ + le_u64(n),
    {
        self.write_u32_le((n % 0x1_0000_0000) as u32);
        self.write_u32_le((n / 0x1_0000_0000) as u32);
        assert(final(self)@ =~= old(self)@ + le_u64(n));
    }

    /// Copies the digest of every byte written so far into `buf`; the
    /// accumulated input is kept.
    pub fn finalize(&mut self, buf: &mut [u8])
        requires
            old(buf)@.len() == HASH256_BYTES,
        ensures
            final(self)@ == old(self)@,
            final(buf)@ == blake2s_256(old(self)@),
    {
        let d = blake2s_digest(self.pending.as_slice());
        let mut i: usize = 0;
        while i < HASH256_BYTES
            invariant
                i <= HASH256_BYTES,
                buf@.len() == HASH256_BYTES,
                d@ == blake2s_256(self@),
                forall|j: int| 0 <= j < i ==> buf@[j] == d@[j],
            decreases HASH256_BYTES - i,
        {
            buf[i] = d[i];
            i = i + 1;
        }
        assert(buf@ =~= d@);
    }

    /// Discards the accumulated input.
    pub fn reset(&mut self)
        ensures
            final(self)@ == Seq::<u8>::empty(),
    {
        self.pending = Vec::new();
    }
}

/// Whether two byte sequences are equal.
pub fn bytes_equal(a: &[u8], b: &[u8]) -> (r: bool)
    ensures
        r == (a@ == b@),
{
    if a.len() != b.len() {
        return false;
    }
    let mut i: usize = 0;
    while i < a.len()
        invariant
            a@.len() == b@.len(),
            i <= a@.len(),
            forall|j: int| 0 <= j < i ==> a@[j] == b@[j],
        decreases a@.len() - i,
    {
        if a[i] != b[i] {
            return false;
        }
        i = i + 1;
    }
    assert(a@ =~= b@);
    true
}

} // verus!
