//! FNV-1a, 64-bit, as a streaming hasher.

use vstd::prelude::*;

verus! {

pub const OFFSET_BASIS: u64 = 0xcbf29ce484222325;

pub const PRIME: u64 = 0x100000001b3;

/// One FNV-1a round: xor the byte in, then multiply by the prime modulo 2^64.
pub open spec fn fnv_step(h: u64, b: u8) -> u64 {
    vstd::wrapping::u64_specs::wrapping_mul(h ^ (b as u64), PRIME)
}

/// The state reached from `h` after feeding `bytes` in order.
pub open spec fn fnv_fold(h: u64, bytes: Seq<u8>) -> u64
    decreases bytes.len(),
{
    if bytes.len() == 0 {
        h
    } else {
        fnv_step(fnv_fold(h, bytes.drop_last()), bytes.last())
    }
}

/// The FNV-1a 64-bit hash of a whole byte sequence.
pub open spec fn fnv1a64_spec(bytes: Seq<u8>) -> u64 {
    fnv_fold(OFFSET_BASIS, bytes)
}

/// Feeding `a` then `b` reaches the same state as feeding `a + b` at once:
/// a hash computed in chunks equals the hash of the whole buffer.
pub proof fn lemma_fnv_chunked(h: u64, a: Seq<u8>, b: Seq<u8>)
    ensures
        fnv_fold(fnv_fold(h, a), b) == fnv_fold(h, a + b),
    decreases b.len(),
{
    if b.len() == 0 {
        assert(a + b =~= a);
    } else {
        lemma_fnv_chunked(h, a, b.drop_last());
        assert((a + b).drop_last() =~= a + b.drop_last());
        assert((a + b).last() == b.last());
    }
}

/// A streaming FNV-1a 64-bit hasher.
#[derive(Debug, Clone, Copy, PartialEq, Eq, Structural)]
pub struct Fnv1a(u64);

impl View for Fnv1a {
    type V = u64;

    closed spec fn view(&self) -> u64 {
        self.0
    }
}

impl Fnv1a {
    pub fn new() -> (h: Self)
        ensures
            h@ == OFFSET_BASIS,
    {
        Fnv1a(OFFSET_BASIS)
    }

    pub fn write(&mut self, bytes: &[u8])
        ensures
            final(self)@ == fnv_fold(old(self)@, bytes@),
    {
        let mut h = self.0;
        let mut i: usize = 0;
        while i < bytes.len()
            invariant
                i <= bytes.len(),
                h == fnv_fold(old(self)@, bytes@.take(i as int)),
            decreases bytes.len() - i,
        {
            assert(bytes@.take(i as int + 1).drop_last() =~= bytes@.take(i as int));
            h = (h ^ (bytes[i] as u64)).wrapping_mul(PRIME);
            i = i + 1;
        }
        assert(bytes@.take(i as int) =~= bytes@);
        self.0 = h;
    }

    pub fn finish(self) -> (r: u64)
        ensures
            r == self@,
    {
        self.0
    }
}

impl Default for Fnv1a {
    fn default() -> (h: Self)
        ensures
            h@ == OFFSET_BASIS,
    {
        Fnv1a::new()
    }
}

/// Hash a whole buffer in one call.
pub fn fnv1a64(bytes: &[u8]) -> (r: u64)
    ensures
        r == fnv1a64_spec(bytes@),
{
    let mut h = Fnv1a::new();
    h.write(bytes);
    h.finish()
}

} // verus!
