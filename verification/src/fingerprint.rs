//! Fingerprints of 128 bits.
//!
//! The hash is FNV-1a over bytes: starting from a fixed basis, each byte is
//! mixed in by an exclusive or followed by a multiplication with a fixed
//! prime, modulo 2^128. Integers go in byte by byte, lowest byte first.

use vstd::prelude::*;

verus! {

/// The state before any byte was mixed in.
pub const BASIS: u128 = 0x6c62272e07bb014262b821756295c58d;

/// The multiplier of each step.
pub const PRIME: u128 = 0x0000000001000000000000000000013b;

/// The state after one more byte.
pub open spec fn mix(h: u128, byte: u8) -> u128 {
    (h ^ (byte as u128)).wrapping_mul(PRIME)
}

/// The state after the bytes of `bytes`, first to last.
pub open spec fn mix_bytes(h: u128, bytes: Seq<u8>) -> u128
    decreases bytes.len(),
{
    if bytes.len() == 0 {
        h
    } else {
        mix(mix_bytes(h, bytes.drop_last()), bytes.last())
    }
}

/// The state after the lowest `width` bytes of `v`, lowest first.
pub open spec fn mix_word(h: u128, v: u128, width: nat) -> u128
    decreases width,
{
    if width == 0 {
        h
    } else {
        mix_word(mix(h, (v & 0xff) as u8), v >> 8, (width - 1) as nat)
    }
}

/// The fingerprint of a sequence of bytes.
pub open spec fn hash_bytes(bytes: Seq<u8>) -> u128 {
    mix_bytes(BASIS, bytes)
}

/// A fingerprint in the making.
pub struct Hasher {
    state: u128,
}

impl View for Hasher {
    type V = u128;

    closed spec fn view(&self) -> u128 {
        self.state
    }
}

impl Hasher {
    /// A hasher that has seen nothing.
    pub fn new() -> (h: Self)
        ensures
            h@ == BASIS,
    {
        Hasher { state: BASIS }
    }

    /// Mixes in one byte.
    pub fn write_u8(&mut self, byte: u8)
        ensures
            final(self)@ == mix(old(self)@, byte),
    {
        self.state = (self.state ^ (byte as u128)).wrapping_mul(PRIME);
    }

    /// Mixes in the lowest `width` bytes of `v`, lowest first.
    pub fn write_word(&mut self, v: u128, width: usize)
        ensures
            final(self)@ == mix_word(old(self)@, v, width as nat),
    {
        let mut rest: u128 = v;
        let mut i: usize = 0;
        while i < width
            invariant
                i <= width,
                mix_word(self@, rest, (width - i) as nat) == mix_word(old(self)@, v, width as nat),
            decreases width - i,
        {
            let low: u128 = rest & 0xff;
            assert(low <= 0xff) by (bit_vector)
                requires
                    low == rest & 0xff,
            ;
            self.write_u8(low as u8);
            rest = rest >> 8;
            i = i + 1;
        }
    }

    /// Mixes in a sequence of bytes, first to last.
    pub fn write_bytes(&mut self, bytes: &[u8])
        ensures
            final(self)@ == mix_bytes(old(self)@, bytes@),
    {
        let mut i: usize = 0;
        while i < bytes.len()
            invariant
                i <= bytes.len(),
                self@ == mix_bytes(old(self)@, bytes@.take(i as int)),
            decreases bytes.len() - i,
        {
            assert(bytes@.take(i + 1).drop_last() =~= bytes@.take(i as int));
            self.write_u8(bytes[i]);
            i = i + 1;
        }
        assert(bytes@.take(bytes.len() as int) =~= bytes@);
    }

    /// The fingerprint of all that was mixed in.
    pub fn finish(&self) -> (h: u128)
        ensures
            h == self@,
    {
        self.state
    }
}

/// The fingerprint of a sequence of bytes.
pub fn hash128(bytes: &[u8]) -> (h: u128)
    ensures
        h == hash_bytes(bytes@),
{
    let mut hasher = Hasher::new();
    hasher.write_bytes(bytes);
    hasher.finish()
}

} // verus!
