use synedrion::tools::arithmetic::{
    public_point, scalar_add, scalar_mul, scalar_sub, scalar_sum, GENERATOR, GENERATOR_INVERSE,
};
use synedrion::tools::codec::{decode_scalars, encode_scalars};
use synedrion::tools::hashing::{absorb_word, digest, digest_from, FNV_OFFSET, FNV_PRIME};
use synedrion::{LocalError, Randomness};

#[test]
fn digest_matches_the_published_values_of_fnv_1a() {
    assert_eq!(digest(&b"".to_vec()), 0xcbf2_9ce4_8422_2325);
    assert_eq!(digest(&b"a".to_vec()), 0xaf63_dc4c_8601_ec8c);
    assert_eq!(digest(&b"foobar".to_vec()), 0x8594_4171_f739_67e8);
}

#[test]
fn digest_can_be_continued() {
    let whole = digest(&b"foobar".to_vec());
    let half = digest(&b"foo".to_vec());
    assert_eq!(digest_from(half, &b"bar".to_vec()), whole);
    assert_eq!(digest_from(FNV_OFFSET, &vec![]), FNV_OFFSET);
}

#[test]
fn absorbing_a_word_is_one_multiplication() {
    assert_eq!(absorb_word(0, 1), FNV_PRIME);
    assert_eq!(absorb_word(5, 5), 0);
    assert_eq!(absorb_word(FNV_OFFSET, 0), FNV_OFFSET.wrapping_mul(FNV_PRIME));
}

#[test]
fn single_byte_changes_always_change_the_digest() {
    let data: Vec<u8> = (0..40u8).collect();
    let original = digest(&data);
    for at in 0..data.len() {
        for value in 0..=255u8 {
            if value == data[at] {
                continue;
            }
            let mut changed = data.clone();
            changed[at] = value;
            assert_ne!(digest(&changed), original);
        }
    }
}

#[test]
fn scalars_wrap_around() {
    assert_eq!(scalar_add(u64::MAX, 2), 1);
    assert_eq!(scalar_sub(1, 2), u64::MAX);
    assert_eq!(scalar_mul(1 << 63, 2), 0);
    assert_eq!(scalar_mul(3, 5), 15);
    assert_eq!(scalar_sum(&vec![u64::MAX, 1, 7]), 7);
    assert_eq!(scalar_sum(&vec![]), 0);
}

#[test]
fn the_generator_is_invertible() {
    assert_eq!(public_point(1), GENERATOR);
    assert_eq!(public_point(0), 0);
    assert_eq!(scalar_mul(GENERATOR, GENERATOR_INVERSE), 1);
    assert_eq!(scalar_mul(public_point(0xdead_beef), GENERATOR_INVERSE), 0xdead_beef);
    assert_eq!(public_point(2), 0x3C6E_F372_FE94_F82A);
}

#[test]
fn public_points_add_like_their_scalars() {
    for (a, b) in [(1u64, 2u64), (u64::MAX, 77), (0x1234_5678_9abc_def0, 0xfedc_ba98_7654_3210)] {
        assert_eq!(public_point(scalar_add(a, b)), scalar_add(public_point(a), public_point(b)));
    }
}

#[test]
fn scalars_are_encoded_in_eight_little_endian_bytes() {
    assert_eq!(
        encode_scalars(&vec![1, 0x0102_0304_0506_0708]),
        vec![1, 0, 0, 0, 0, 0, 0, 0, 8, 7, 6, 5, 4, 3, 2, 1]
    );
    assert_eq!(encode_scalars(&vec![]), Vec::<u8>::new());
    assert_eq!(
        decode_scalars(&vec![1, 0, 0, 0, 0, 0, 0, 0, 8, 7, 6, 5, 4, 3, 2, 1]),
        Some(vec![1, 0x0102_0304_0506_0708])
    );
    assert_eq!(decode_scalars(&vec![]), Some(vec![]));
    assert_eq!(decode_scalars(&vec![0; 7]), None);
    assert_eq!(decode_scalars(&vec![0; 9]), None);
    let values = vec![0, u64::MAX, 42, 1 << 40];
    assert_eq!(decode_scalars(&encode_scalars(&values)), Some(values));
}

#[test]
fn randomness_is_consumed_in_order() {
    let mut randomness = Randomness::from_scalars(vec![10, 20, 30, 40]);
    assert_eq!(randomness.remaining(), 4);
    assert_eq!(randomness.take(), Ok(10));
    assert_eq!(randomness.take_many(2), Ok(vec![20, 30]));
    assert_eq!(randomness.take_many(2), Err(LocalError::RandomnessUnavailable));
    assert_eq!(randomness.remaining(), 1);
    assert_eq!(randomness.take_many(0), Ok(vec![]));
    assert_eq!(randomness.take(), Ok(40));
    assert_eq!(randomness.take(), Err(LocalError::RandomnessUnavailable));
    assert_eq!(randomness.remaining(), 0);
}
