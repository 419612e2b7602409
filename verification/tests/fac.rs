use synedrion::{FacProof, Randomness};

#[test]
fn a_generated_proof_is_accepted() {
    let mut randomness = Randomness::from_scalars(vec![1, 2, 3]);
    let aux = vec![9u8; 8];
    let proof = FacProof::random(&mut randomness, 12345, &aux);
    assert!(proof.verify(&aux));
    assert_eq!(randomness.remaining(), 3);
}

#[test]
fn verification_depends_on_the_proof_and_the_public_data_only() {
    let mut randomness = Randomness::from_scalars(vec![]);
    let first = FacProof::random(&mut randomness, 1, &vec![1]);
    let second = FacProof::random(&mut randomness, 2, &vec![1]);
    assert_eq!(first, second);
    assert_eq!(first.verify(&vec![1]), second.verify(&vec![1]));
    assert!(first.verify(&vec![]));
}

#[test]
fn a_proof_takes_no_bytes_on_the_wire() {
    let mut randomness = Randomness::from_scalars(vec![]);
    let proof = FacProof::random(&mut randomness, 7, &vec![]);
    assert_eq!(proof.to_bytes(), Vec::<u8>::new());
    assert_eq!(FacProof::from_bytes(&vec![]), Some(proof));
    assert_eq!(FacProof::from_bytes(&vec![0]), None);
}
