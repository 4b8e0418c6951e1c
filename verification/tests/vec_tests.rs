use secure_types::vec::RangeEdge;
use secure_types::{SecureBytes, SecureVec};

#[test]
fn test_from_methods() {
    let vec: Vec<u8> = vec![1, 2, 3];
    let mut secure_vec = SecureVec::from_vec(vec).unwrap();

    secure_vec.unlock_slice(|slice| {
        assert_eq!(slice, &[1, 2, 3]);
    });

    let mut slice: Vec<u8> = vec![3, 5];
    let mut secure_slice = SecureVec::from_slice_mut(&mut slice).unwrap();
    assert_eq!(slice, vec![0, 0]);

    secure_slice.unlock_slice(|slice| {
        assert_eq!(slice, &[3, 5]);
    });

    let slice: [u8; 2] = [3, 5];
    let mut secure_slice = SecureVec::from_slice(&slice).unwrap();

    secure_slice.unlock_slice(|slice| {
        assert_eq!(slice, &[3, 5]);
    });
}

#[test]
fn test_from_secure_array() {
    let array: secure_types::SecureArray<3> =
        secure_types::SecureArray::from_slice(&[1, 2, 3]).unwrap();
    let mut vec: SecureVec = array.into_vec();
    assert_eq!(vec.len(), 3);
    vec.unlock_slice(|slice| {
        assert_eq!(slice, &[1, 2, 3]);
    });
}

#[test]
fn vec_lock_unlock() {
    let mut secure: SecureVec = SecureVec::new().unwrap();
    let size = secure.capacity();
    assert_eq!(size > 0, true);

    let (decrypted, unlocked) = secure.unlock_memory();
    assert!(decrypted);
    assert!(unlocked);

    let (encrypted, locked) = secure.lock_memory();
    assert!(encrypted);
    assert!(locked);

    let mut secure: SecureVec = SecureVec::from_vec(vec![]).unwrap();
    let size = secure.capacity();
    assert_eq!(size > 0, true);

    let (decrypted, unlocked) = secure.unlock_memory();
    assert!(decrypted);
    assert!(unlocked);

    let (encrypted, locked) = secure.lock_memory();
    assert!(encrypted);
    assert!(locked);

    let mut secure: SecureVec = SecureVec::new_with_capacity(0).unwrap();
    let size = secure.capacity();
    assert_eq!(size > 0, true);

    let (decrypted, unlocked) = secure.unlock_memory();
    assert!(decrypted);
    assert!(unlocked);

    let (encrypted, locked) = secure.lock_memory();
    assert!(encrypted);
    assert!(locked);
}

#[test]
fn vec_test_clone() {
    let vec: Vec<u8> = vec![1, 2, 3];
    let mut secure1 = SecureVec::from_vec(vec).unwrap();
    let mut secure2 = secure1.clone();

    let first = secure1.unlock_slice(|slice| slice.to_vec());
    let second = secure2.unlock_slice(|slice| slice.to_vec());
    assert_eq!(first, second);
}

#[test]
fn test_clone_independent() {
    let mut original = SecureVec::from_slice(&[9, 8, 7]).unwrap();
    let mut copy = original.clone();

    copy.unlock_memory();
    copy.set(0, 42);
    copy.lock_memory();

    original.unlock_slice(|slice| {
        assert_eq!(slice, &[9, 8, 7]);
    });
    copy.unlock_slice(|slice| {
        assert_eq!(slice, &[42, 8, 7]);
    });
}

#[test]
fn vec_test_drain() {
    let vec: Vec<u8> = vec![1, 2, 3, 4, 5, 6, 7, 8, 9, 10];
    let mut secure = SecureVec::from_vec(vec).unwrap();
    let drained = secure.drain(RangeEdge::Unbounded, RangeEdge::Excluded(3));
    assert_eq!(drained, vec![1, 2, 3]);
    secure.unlock_slice(|secure| {
        assert_eq!(secure.len(), 7);
        assert_eq!(secure, &[4, 5, 6, 7, 8, 9, 10]);
    });
}

#[test]
fn test_drain_middle_range() {
    let mut secure = SecureVec::from_slice(&[1, 2, 3, 4, 5]).unwrap();
    let drained = secure.drain(RangeEdge::Included(1), RangeEdge::Included(3));
    assert_eq!(drained, vec![2, 3, 4]);
    assert_eq!(secure.len(), 2);
    assert_eq!(secure.capacity(), 5);
    secure.unlock_slice(|slice| {
        assert_eq!(slice, &[1, 5]);
    });
}

#[test]
fn vec_test_erase() {
    let vec: Vec<u8> = vec![1, 2, 3];
    let mut secure = SecureVec::from_vec(vec).unwrap();
    secure.erase();
    secure.unlock(|secure| {
        assert_eq!(secure.len(), 0);
        assert_eq!(secure.capacity(), 3);
    });

    secure.push(1);
    secure.push(2);
    secure.push(3);
    secure.unlock(|secure| {
        assert_eq!(secure.index(0), 1);
        assert_eq!(secure.index(1), 2);
        assert_eq!(secure.index(2), 3);
        assert_eq!(secure.len(), 3);
        assert_eq!(secure.capacity(), 3);
    });
}

#[test]
fn test_push() {
    let vec: Vec<u8> = Vec::new();
    let mut secure = SecureVec::from_vec(vec).unwrap();
    for i in 0..30 {
        secure.push(i);
    }
}

#[test]
fn test_reserve() {
    let mut secure: SecureVec = SecureVec::new().unwrap();
    secure.reserve(10);
    assert_eq!(secure.capacity(), 10);
}

#[test]
fn test_reserve_doubling() {
    let mut secure: SecureVec = SecureVec::new().unwrap();
    secure.reserve(10);

    for i in 0..9 {
        secure.push(i);
    }

    secure.push(9);
    assert_eq!(secure.capacity(), 10);
    assert_eq!(secure.len(), 10);

    secure.push(10);
    assert_eq!(secure.capacity(), 20);
    assert_eq!(secure.len(), 11);
}

#[test]
fn test_push_doubling_sequence() {
    let mut secure: SecureVec = SecureVec::new().unwrap();
    assert_eq!(secure.capacity(), 1);
    let mut seen = Vec::new();
    for i in 0..9u8 {
        secure.push(i);
        seen.push(secure.capacity());
    }
    assert_eq!(seen, vec![1, 2, 4, 4, 8, 8, 8, 8, 16]);
}

#[test]
fn test_index() {
    let vec: Vec<u8> = vec![1, 2, 3];
    let mut secure = SecureVec::from_vec(vec).unwrap();
    secure.unlock(|secure| {
        assert_eq!(secure.index(0), 1);
        assert_eq!(secure.index(1), 2);
        assert_eq!(secure.index(2), 3);
    });
}

#[test]
fn test_slice_scoped() {
    let vec: Vec<u8> = vec![1, 2, 3];
    let mut secure = SecureVec::from_vec(vec).unwrap();
    secure.unlock_slice(|slice| {
        assert_eq!(slice, &[1, 2, 3]);
    });
}

#[test]
fn test_slice_mut_scoped() {
    let vec: Vec<u8> = vec![1, 2, 3];
    let mut secure = SecureVec::from_vec(vec).unwrap();

    secure.unlock_memory();
    secure.set(0, 4);
    assert_eq!(secure.index(0), 4);
    secure.lock_memory();

    secure.unlock_slice(|slice| {
        assert_eq!(slice, &[4, 2, 3]);
    });
}

#[test]
fn test_iter_scoped() {
    let vec: Vec<u8> = vec![1, 2, 3];
    let mut secure = SecureVec::from_vec(vec).unwrap();
    let sum: u8 = secure.unlock_slice(|slice| slice.iter().map(|&x| x).sum());

    assert_eq!(sum, 6);

    let mut secure: SecureVec = SecureVec::new_with_capacity(3).unwrap();
    let sum: u8 = secure.unlock_slice(|slice| slice.iter().map(|&x| x).sum());

    assert_eq!(sum, 0);
}

#[test]
fn test_iter_mut_scoped() {
    let vec: Vec<u8> = vec![1, 2, 3];
    let mut secure = SecureVec::from_vec(vec).unwrap();

    secure.unlock_memory();
    for i in 0..secure.len() {
        let value = secure.index(i);
        secure.set(i, value + 1);
    }
    secure.lock_memory();

    secure.unlock_slice(|slice| {
        assert_eq!(slice, &[2, 3, 4]);
    });
}

#[test]
fn test_secure_bytes_alias() {
    let mut secure: SecureBytes = SecureBytes::from_slice(&[0xAB, 0xCD, 0xEF]).unwrap();
    assert_eq!(secure.len(), 3);
    secure.unlock_slice(|slice| {
        assert_eq!(slice, &[0xAB, 0xCD, 0xEF]);
    });
}

#[test]
fn test_drain_everything() {
    let mut secure = SecureVec::from_slice(&[1, 2, 3, 4]).unwrap();
    let drained = secure.drain(RangeEdge::Unbounded, RangeEdge::Unbounded);
    assert_eq!(drained, vec![1, 2, 3, 4]);
    assert_eq!(secure.len(), 0);
    assert_eq!(secure.capacity(), 4);
}

#[test]
fn test_drain_empty_range() {
    let mut secure = SecureVec::from_slice(&[1, 2, 3]).unwrap();
    let drained = secure.drain(RangeEdge::Included(1), RangeEdge::Excluded(1));
    assert_eq!(drained, Vec::<u8>::new());
    secure.unlock_slice(|slice| {
        assert_eq!(slice, &[1, 2, 3]);
    });
}

#[test]
fn test_erase_empty_buffer() {
    let mut secure: SecureVec = SecureVec::new().unwrap();
    secure.erase();
    assert_eq!(secure.len(), 0);
    assert_eq!(secure.capacity(), 1);
}

#[test]
fn test_wire_roundtrip() {
    let secure = SecureVec::from_slice(&[7, 7, 7]).unwrap();
    let wire = secure.wire_bytes();
    let mut rebuilt = SecureVec::from_vec(wire).unwrap();
    rebuilt.unlock_slice(|slice| {
        assert_eq!(slice, &[7, 7, 7]);
    });
}

#[test]
fn test_resolve_range_indices() {
    let resolved = secure_types::vec::resolve_range_indices(
        RangeEdge::Unbounded,
        RangeEdge::Unbounded,
        10,
    );
    assert_eq!(resolved, (0, 10));
    let resolved = secure_types::vec::resolve_range_indices(
        RangeEdge::Included(2),
        RangeEdge::Excluded(5),
        10,
    );
    assert_eq!(resolved, (2, 5));
    let resolved = secure_types::vec::resolve_range_indices(
        RangeEdge::Excluded(2),
        RangeEdge::Included(5),
        10,
    );
    assert_eq!(resolved, (3, 6));
}
