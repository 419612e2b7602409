//! The payload digest: 64-bit FNV-1a.
//!
//! Every absorption step is a bijection of the running state, so two inputs
//! of one length that differ in a single byte never share a digest.

use vstd::prelude::*;
use crate::tools::arithmetic::{
    spec_mul,
    lemma_mul_laws,
    scalar_mul,
};

verus! {

/// The initial state of the digest.
pub const FNV_OFFSET: u64 = 0xCBF2_9CE4_8422_2325;

/// The multiplier of the digest. It is odd.
pub const FNV_PRIME: u64 = 0x0000_0100_0000_01B3;

/// The inverse of [`FNV_PRIME`] modulo `2^64`.
pub const FNV_PRIME_INVERSE: u64 = 0xCE96_5057_AFF6_957B;

/// The state after absorbing one byte.
pub open spec fn spec_absorb(state: u64, byte: u8) -> u64 {
    spec_mul(state ^ (byte as u64), FNV_PRIME)
}

/// The state after absorbing one 64-bit word in a single step.
pub open spec fn spec_absorb_word(state: u64, word: u64) -> u64 {
    spec_mul(state ^ word, FNV_PRIME)
}

/// The state after absorbing `data`, byte by byte, starting from `state`.
pub open spec fn spec_digest_from(state: u64, data: Seq<u8>) -> u64
    decreases data.len(),
{
    if data.len() == 0 {
        state
    } else {
        spec_absorb(spec_digest_from(state, data.drop_last()), data.last())
    }
}

/// The digest of `data`.
pub open spec fn spec_digest(data: Seq<u8>) -> u64 {
    spec_digest_from(FNV_OFFSET, data)
}

proof fn lemma_prime_unit(k: int)
    requires
        k == 0xCE_9650_590F,
    ensures
        0x0000_0100_0000_01B3 * 0xCE96_5057_AFF6_957B == 1 + k * 0x1_0000_0000_0000_0000,
{
}

/// Absorbing a word is one-to-one in the state and in the word.
pub proof fn lemma_absorb_word_injective(s1: u64, w1: u64, s2: u64, w2: u64)
    requires
        spec_absorb_word(s1, w1) == spec_absorb_word(s2, w2),
    ensures
        s1 == s2 ==> w1 == w2,
        w1 == w2 ==> s1 == s2,
{
    let x1 = s1 ^ w1;
    let x2 = s2 ^ w2;
    let k: int = 0xCE_9650_590F;
    lemma_prime_unit(k);
    assert(spec_mul(FNV_PRIME, FNV_PRIME_INVERSE) == 1);
    lemma_mul_laws(x1, FNV_PRIME, FNV_PRIME_INVERSE);
    lemma_mul_laws(x2, FNV_PRIME, FNV_PRIME_INVERSE);
    assert(x1 == x2);
    assert(s1 == s2 && s1 ^ w1 == s2 ^ w2 ==> w1 == w2) by (bit_vector);
    assert(w1 == w2 && s1 ^ w1 == s2 ^ w2 ==> s1 == s2) by (bit_vector);
}

/// Absorbing a byte is one-to-one in the state and in the byte: a byte is
/// absorbed as the word it is.
pub proof fn lemma_absorb_injective(s1: u64, b1: u8, s2: u64, b2: u8)
    requires
        spec_absorb(s1, b1) == spec_absorb(s2, b2),
    ensures
        s1 == s2 ==> b1 == b2,
        b1 == b2 ==> s1 == s2,
{
    lemma_absorb_word_injective(s1, b1 as u64, s2, b2 as u64);
}

/// The digest of data extended by one byte.
pub proof fn lemma_digest_push(state: u64, data: Seq<u8>, byte: u8)
    ensures
        spec_digest_from(state, data.push(byte)) == spec_absorb(
            spec_digest_from(state, data),
            byte,
        ),
{
    assert(data.push(byte).drop_last() =~= data);
}

/// Two inputs of one length that differ in exactly one byte have different
/// digests, whatever state the digest starts from.
pub proof fn lemma_digest_detects_single_byte(state: u64, a: Seq<u8>, b: Seq<u8>, at: int)
    requires
        a.len() == b.len(),
        0 <= at < a.len(),
        a[at] != b[at],
        forall|j: int| 0 <= j < a.len() && j != at ==> a[j] == b[j],
    ensures
        spec_digest_from(state, a) != spec_digest_from(state, b),
    decreases a.len(),
{
    let last = a.len() - 1;
    let da = spec_digest_from(state, a.drop_last());
    let db = spec_digest_from(state, b.drop_last());
    if at == last {
        assert(a.drop_last() =~= b.drop_last());
        if spec_absorb(da, a.last()) == spec_absorb(db, b.last()) {
            lemma_absorb_injective(da, a.last(), db, b.last());
        }
    } else {
        assert(a.drop_last()[at] == a[at]);
        assert(b.drop_last()[at] == b[at]);
        assert forall|j: int| 0 <= j < a.drop_last().len() && j != at implies a.drop_last()[j]
            == b.drop_last()[j] by {
            assert(a.drop_last()[j] == a[j]);
            assert(b.drop_last()[j] == b[j]);
        }
        lemma_digest_detects_single_byte(state, a.drop_last(), b.drop_last(), at);
        assert(a.last() == b.last());
        if spec_absorb(da, a.last()) == spec_absorb(db, b.last()) {
            lemma_absorb_injective(da, a.last(), db, b.last());
        }
    }
}

/// Absorbs `data` into `state`.
pub fn digest_from(state: u64, data: &Vec<u8>) -> (r: u64)
    ensures
        r == spec_digest_from(state, data@),
{
    let mut current: u64 = state;
    let mut i: usize = 0;
    while i < data.len()
        invariant
            i <= data.len(),
            current == spec_digest_from(state, data@.take(i as int)),
        decreases data.len() - i,
    {
        proof {
            assert(data@.take(i + 1) =~= data@.take(i as int).push(data@[i as int]));
            lemma_digest_push(state, data@.take(i as int), data@[i as int]);
        }
        current = scalar_mul(current ^ (data[i] as u64), FNV_PRIME);
        i = i + 1;
    }
    proof {
        assert(data@.take(i as int) =~= data@);
    }
    current
}

/// Absorbs one 64-bit word into `state`.
pub fn absorb_word(state: u64, word: u64) -> (r: u64)
    ensures
        r == spec_absorb_word(state, word),
{
    scalar_mul(state ^ word, FNV_PRIME)
}

/// The digest of `data`.
pub fn digest(data: &Vec<u8>) -> (r: u64)
    ensures
        r == spec_digest(data@),
{
    digest_from(FNV_OFFSET, data)
}

} // verus!
