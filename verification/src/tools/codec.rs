//! The wire form of a list of scalars: eight little-endian bytes each.

use vstd::prelude::*;
use vstd::bytes::{
    lemma_auto_spec_u64_to_from_le_bytes,
    spec_u64_from_le_bytes,
    spec_u64_to_le_bytes,
    u64_from_le_bytes,
    u64_to_le_bytes,
};
use vstd::slice::slice_subrange;

verus! {

/// The bytes of a list of scalars.
pub open spec fn spec_encode_scalars(values: Seq<u64>) -> Seq<u8> {
    Seq::new(8 * values.len(), |k: int| spec_u64_to_le_bytes(values[k / 8])[k % 8])
}

/// The list of scalars that `bytes` encodes, if its length is a multiple of
/// eight.
pub open spec fn spec_decode_scalars(bytes: Seq<u8>) -> Option<Seq<u64>> {
    if bytes.len() % 8 == 0 {
        Some(
            Seq::new(
                bytes.len() / 8,
                |i: int| spec_u64_from_le_bytes(bytes.subrange(8 * i, 8 * i + 8)),
            ),
        )
    } else {
        None
    }
}

/// The eight bytes that encode the scalar at position `i`.
pub proof fn lemma_encoded_chunk(values: Seq<u64>, i: int)
    requires
        0 <= i < values.len(),
    ensures
        spec_encode_scalars(values).subrange(8 * i, 8 * i + 8) == spec_u64_to_le_bytes(values[i]),
{
    lemma_auto_spec_u64_to_from_le_bytes();
    let chunk = spec_encode_scalars(values).subrange(8 * i, 8 * i + 8);
    let word = spec_u64_to_le_bytes(values[i]);
    assert forall|k: int| 0 <= k < 8 implies chunk[k] == word[k] by {
        assert((8 * i + k) / 8 == i);
        assert((8 * i + k) % 8 == k);
    }
    assert(chunk =~= word);
}

/// Decoding undoes encoding.
pub proof fn lemma_decode_encode(values: Seq<u64>)
    ensures
        spec_decode_scalars(spec_encode_scalars(values)) == Some(values),
{
    lemma_auto_spec_u64_to_from_le_bytes();
    let bytes = spec_encode_scalars(values);
    assert(bytes.len() == 8 * values.len());
    let decoded = spec_decode_scalars(bytes)->0;
    assert(decoded.len() == values.len());
    assert forall|i: int| 0 <= i < values.len() implies decoded[i] == values[i] by {
        lemma_encoded_chunk(values, i);
    }
    assert(decoded =~= values);
}

/// Encoding undoes decoding: the two are inverse bijections between lists
/// of scalars and byte strings whose length is a multiple of eight.
pub proof fn lemma_encode_decode(bytes: Seq<u8>)
    requires
        bytes.len() % 8 == 0,
    ensures
        spec_encode_scalars(spec_decode_scalars(bytes)->0) == bytes,
{
    lemma_auto_spec_u64_to_from_le_bytes();
    let values = spec_decode_scalars(bytes)->0;
    let encoded = spec_encode_scalars(values);
    assert(encoded.len() == bytes.len());
    assert forall|k: int| 0 <= k < bytes.len() implies encoded[k] == bytes[k] by {
        let i = k / 8;
        let chunk = bytes.subrange(8 * i, 8 * i + 8);
        assert(chunk.len() == 8);
        assert(spec_u64_to_le_bytes(spec_u64_from_le_bytes(chunk)) == chunk);
        assert(chunk[k % 8] == bytes[8 * i + k % 8]);
    }
    assert(encoded =~= bytes);
}

/// Different lists of scalars have different bytes.
pub proof fn lemma_encode_injective(a: Seq<u64>, b: Seq<u64>)
    requires
        spec_encode_scalars(a) == spec_encode_scalars(b),
    ensures
        a == b,
{
    lemma_decode_encode(a);
    lemma_decode_encode(b);
}

/// Encodes a list of scalars.
pub fn encode_scalars(values: &Vec<u64>) -> (bytes: Vec<u8>)
    ensures
        bytes@ == spec_encode_scalars(values@),
{
    let mut bytes: Vec<u8> = Vec::new();
    let mut i: usize = 0;
    while i < values.len()
        invariant
            i <= values.len(),
            bytes@ == spec_encode_scalars(values@.take(i as int)),
        decreases values.len() - i,
    {
        let word = u64_to_le_bytes(values[i]);
        let ghost before = bytes@;
        let mut k: usize = 0;
        while k < 8
            invariant
                k <= 8,
                word@.len() == 8,
                bytes@ == before + word@.take(k as int),
            decreases 8 - k,
        {
            bytes.push(word[k]);
            proof {
                assert(word@.take(k + 1) =~= word@.take(k as int).push(word@[k as int]));
                assert(bytes@ =~= before + word@.take(k + 1));
            }
            k = k + 1;
        }
        proof {
            assert(word@.take(8) =~= word@);
            let shorter = values@.take(i as int);
            let longer = values@.take(i + 1);
            let target = spec_encode_scalars(longer);
            assert(bytes@.len() == target.len());
            assert forall|p: int| 0 <= p < target.len() implies bytes@[p] == target[p] by {
                if p < 8 * i {
                    assert(longer[p / 8] == shorter[p / 8]);
                } else {
                    assert(p / 8 == i);
                    assert(p % 8 == p - 8 * i);
                }
            }
            assert(bytes@ =~= target);
        }
        i = i + 1;
    }
    proof {
        assert(values@.take(i as int) =~= values@);
    }
    bytes
}

/// Decodes a list of scalars. Fails exactly when the length of `bytes` is not
/// a multiple of eight.
pub fn decode_scalars(bytes: &Vec<u8>) -> (values: Option<Vec<u64>>)
    ensures
        match values {
            Some(list) => spec_decode_scalars(bytes@) == Some(list@),
            None => spec_decode_scalars(bytes@) == None::<Seq<u64>>,
        },
{
    if bytes.len() % 8 != 0 {
        return None;
    }
    let total: usize = bytes.len();
    let count: usize = total / 8;
    let ghost target = spec_decode_scalars(bytes@)->0;
    let mut values: Vec<u64> = Vec::new();
    let mut i: usize = 0;
    while i < count
        invariant
            i <= count,
            total == bytes@.len(),
            total == 8 * count,
            target == spec_decode_scalars(bytes@)->0,
            values@ == target.take(i as int),
        decreases count - i,
    {
        let chunk = slice_subrange(bytes.as_slice(), 8 * i, 8 * i + 8);
        let value = u64_from_le_bytes(chunk);
        values.push(value);
        proof {
            assert(target.take(i + 1) =~= target.take(i as int).push(target[i as int]));
        }
        i = i + 1;
    }
    proof {
        assert(target.take(i as int) =~= target);
    }
    Some(values)
}

} // verus!
