//! Hashing helpers. `mix` is an avalanche finalizer (murmur3-style); every
//! cached hash in the crate is a pure function of the hashed value's view,
//! built from it, so structurally equal values always hash alike.
use vstd::prelude::*;

verus! {

/// Multiplication modulo 2^64.
pub open spec fn wmul(x: u64, y: u64) -> u64 {
    ((x as nat * y as nat) % 0x1_0000_0000_0000_0000) as u64
}

/// The mixing function on specification values.
pub open spec fn spec_mix(a: u64, b: u64) -> u64 {
    let h0 = a ^ wmul(b, 0x9E37_79B9_7F4A_7C15);
    let h1 = h0 ^ (h0 >> 33u64);
    let h2 = wmul(h1, 0xFF51_AFD7_ED55_8CCD);
    let h3 = h2 ^ (h2 >> 33u64);
    let h4 = wmul(h3, 0xC4CE_B9FE_1A85_EC53);
    h4 ^ (h4 >> 33u64)
}

/// Combines two 64-bit words into one well-mixed word.
#[verifier::when_used_as_spec(spec_mix)]
pub fn mix(a: u64, b: u64) -> (r: u64)
    ensures
        r == spec_mix(a, b),
{
    let mut h = a ^ b.wrapping_mul(0x9E37_79B9_7F4A_7C15);
    h ^= h >> 33;
    h = h.wrapping_mul(0xFF51_AFD7_ED55_8CCD);
    h ^= h >> 33;
    h = h.wrapping_mul(0xC4CE_B9FE_1A85_EC53);
    h ^= h >> 33;
    h
}

/// Hash of a character sequence, folded from the first character.
pub open spec fn str_hash(s: Seq<char>) -> u64
    decreases s.len(),
{
    if s.len() == 0 {
        0
    } else {
        spec_mix(str_hash(s.drop_last()), s.last() as u32 as u64)
    }
}

/// Hash of the characters `cs` (`str_hash`).
pub fn chars_hash(cs: &Vec<char>) -> (r: u64)
    ensures
        r == str_hash(cs@),
{
    let mut h: u64 = 0;
    let mut i: usize = 0;
    while i < cs.len()
        invariant
            i <= cs@.len(),
            h == str_hash(cs@.take(i as int)),
        decreases cs@.len() - i,
    {
        proof {
            assert(cs@.take(i + 1).drop_last() =~= cs@.take(i as int));
        }
        h = mix(h, cs[i] as u32 as u64);
        i = i + 1;
    }
    proof {
        assert(cs@.take(i as int) =~= cs@);
    }
    h
}

} // verus!
