use synedrion::{LocalError, ParticipantSet};

#[test]
fn participants_are_kept_in_canonical_order() {
    let set = ParticipantSet::new(&vec![30, 10, 20]).unwrap();
    assert_eq!(set.to_vec(), vec![10, 20, 30]);
    assert_eq!(set.len(), 3);
    assert_eq!(set.get(0), Some(10));
    assert_eq!(set.get(2), Some(30));
    assert_eq!(set.get(3), None);
    assert_eq!(set.at(1), 20);
    assert_eq!(set.position(20), Some(1));
    assert_eq!(set.position(25), None);
    assert!(set.contains(30));
    assert!(!set.contains(31));
    assert_eq!(set.without(20), vec![10, 30]);
    assert_eq!(set.without(99), vec![10, 20, 30]);
}

#[test]
fn the_order_in_which_participants_are_listed_does_not_matter() {
    let a = ParticipantSet::new(&vec![3, 1, 2]).unwrap();
    let b = ParticipantSet::new(&vec![2, 3, 1]).unwrap();
    let c = ParticipantSet::new(&vec![1, 2]).unwrap();
    assert!(a.same_as(&b));
    assert!(!a.same_as(&c));
    assert_eq!(a.to_vec(), b.to_vec());
    assert!(a.duplicate().same_as(&a));
}

#[test]
fn a_list_that_names_an_identity_twice_is_rejected() {
    assert_eq!(ParticipantSet::new(&vec![1, 2, 1]).err(), Some(LocalError::DuplicateIdentity));
    assert_eq!(ParticipantSet::new(&vec![5, 5]).err(), Some(LocalError::DuplicateIdentity));
    assert!(ParticipantSet::new(&vec![]).is_ok());
    assert_eq!(ParticipantSet::new(&vec![]).unwrap().len(), 0);
    assert!(ParticipantSet::new(&vec![u64::MAX, 0]).is_ok());
}
