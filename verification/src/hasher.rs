//! Content hashing used to tell whether the bytes of a file changed.

use vstd::arithmetic::div_mod::{lemma_mod_multiples_vanish, lemma_mul_mod_noop_left, lemma_small_mod};
use vstd::prelude::*;

verus! {

/// FNV-1a 64-bit offset basis.
pub const FNV_OFFSET_BASIS: u64 = 0xcbf29ce484222325;

/// FNV-1a 64-bit prime.
pub const FNV_PRIME: u64 = 0x00000100000001b3;

/// One FNV-1a round: fold the byte into the state, then multiply by the
/// prime modulo 2^64.
pub open spec fn fnv1a_step(state: u64, byte: u8) -> u64 {
    (state ^ (byte as u64)).wrapping_mul(FNV_PRIME)
}

/// The FNV-1a hash of a byte sequence: the offset basis for the empty
/// sequence, one round per byte from first to last otherwise.
pub open spec fn fnv1a64_spec(bytes: Seq<u8>) -> u64
    decreases bytes.len(),
{
    if bytes.len() == 0 {
        FNV_OFFSET_BASIS
    } else {
        fnv1a_step(fnv1a64_spec(bytes.drop_last()), bytes.last())
    }
}

/// Hashes `bytes` with 64-bit FNV-1a.
pub fn fnv1a64(bytes: &[u8]) -> (hash: u64)
    ensures
        hash == fnv1a64_spec(bytes@),
{
    let mut state: u64 = FNV_OFFSET_BASIS;
    let mut i: usize = 0;
    while i < bytes.len()
        invariant
            i <= bytes.len(),
            state == fnv1a64_spec(bytes@.take(i as int)),
        decreases bytes.len() - i,
    {
        proof {
            assert(bytes@.take(i + 1).drop_last() =~= bytes@.take(i as int));
        }
        state = (state ^ (bytes[i] as u64)).wrapping_mul(FNV_PRIME);
        i += 1;
    }
    proof {
        assert(bytes@.take(i as int) =~= bytes@);
    }
    state
}

/// Equal inputs hash equally: the hash is a function of the bytes alone.
pub proof fn lemma_hash_deterministic(a: Seq<u8>, b: Seq<u8>)
    requires
        a =~= b,
    ensures
        fnv1a64_spec(a) == fnv1a64_spec(b),
{
}

/// The inverse of the prime modulo 2^64: their product leaves 1.
pub const FNV_PRIME_INVERSE: u64 = 0xce965057aff6957b;

/// Multiplying by the prime modulo 2^64 loses nothing: multiplying the
/// product by the inverse of the prime gives the factor back.
pub proof fn lemma_prime_multiplication_undone(x: u64)
    ensures
        x.wrapping_mul(FNV_PRIME).wrapping_mul(FNV_PRIME_INVERSE) == x,
{
    let m: int = 0x1_0000_0000_0000_0000;
    let p: int = FNV_PRIME as int;
    let inv: int = FNV_PRIME_INVERSE as int;
    let k: int = 887285111055;
    assert(p * inv == k * m + 1) by (nonlinear_arith)
        requires
            m == 0x1_0000_0000_0000_0000,
            p == 0x00000100000001b3,
            inv == 0xce965057aff6957b,
            k == 887285111055,
    ;
    let xp = x as int * p;
    assert(xp * inv == m * (x as int * k) + x as int) by (nonlinear_arith)
        requires
            xp == x as int * p,
            p * inv == k * m + 1,
    ;
    lemma_mul_mod_noop_left(xp, inv, m);
    lemma_mod_multiples_vanish(x as int * k, x as int, m);
    lemma_small_mod(x as nat, m as nat);
    assert(0 <= xp) by (nonlinear_arith)
        requires
            xp == x as int * p,
            0 <= p,
            0 <= x as int,
    ;
    assert(0 <= (xp % m) * inv) by (nonlinear_arith)
        requires
            0 <= xp % m,
            0 <= inv,
    ;
}

/// A round keeps states apart and bytes apart: from different states, or
/// with different bytes, it never reaches the same state.
pub proof fn lemma_step_injective(s1: u64, b1: u8, s2: u64, b2: u8)
    requires
        fnv1a_step(s1, b1) == fnv1a_step(s2, b2),
    ensures
        s1 == s2 ==> b1 == b2,
        b1 == b2 ==> s1 == s2,
{
    let x1 = s1 ^ (b1 as u64);
    let x2 = s2 ^ (b2 as u64);
    lemma_prime_multiplication_undone(x1);
    lemma_prime_multiplication_undone(x2);
    assert(x1 == x2);
    assert(s1 == s2 ==> b1 == b2) by (bit_vector)
        requires
            s1 ^ (b1 as u64) == s2 ^ (b2 as u64),
    ;
    assert(b1 == b2 ==> s1 == s2) by (bit_vector)
        requires
            s1 ^ (b1 as u64) == s2 ^ (b2 as u64),
    ;
}

/// Changing one byte of an input, and nothing else, always changes its
/// hash. Inputs that differ in more than one place may still collide.
pub proof fn lemma_single_byte_change(a: Seq<u8>, b: Seq<u8>, i: int)
    requires
        a.len() == b.len(),
        0 <= i < a.len(),
        a[i] != b[i],
        forall|j: int| 0 <= j < a.len() && j != i ==> a[j] == b[j],
    ensures
        fnv1a64_spec(a) != fnv1a64_spec(b),
    decreases a.len(),
{
    let sa = fnv1a64_spec(a.drop_last());
    let sb = fnv1a64_spec(b.drop_last());
    if i == a.len() - 1 {
        assert(a.drop_last() =~= b.drop_last());
    } else {
        lemma_single_byte_change(a.drop_last(), b.drop_last(), i);
    }
    if fnv1a64_spec(a) == fnv1a64_spec(b) {
        lemma_step_injective(sa, a.last(), sb, b.last());
    }
}

} // verus!
