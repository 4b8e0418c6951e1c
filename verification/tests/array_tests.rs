use secure_types::{Error, SecureArray, SecureVec};

#[test]
fn test_creation() {
    let mut exposed_mut: Vec<u8> = vec![1, 2, 3];
    let mut array: SecureArray<3> = SecureArray::from_slice_mut(&mut exposed_mut).unwrap();
    assert_eq!(array.len(), 3);

    array.unlock(|slice| {
        assert_eq!(slice, &[1, 2, 3]);
    });

    assert_eq!(exposed_mut, vec![0u8; 3]);

    let exposed: [u8; 3] = [1, 2, 3];
    let mut array: SecureArray<3> = SecureArray::from_slice(&exposed).unwrap();
    assert_eq!(array.len(), 3);

    array.unlock(|slice| {
        assert_eq!(slice, &[1, 2, 3]);
    });

    assert_eq!(exposed, [1, 2, 3]);
}

#[test]
fn test_from_secure_vec() {
    let vec: SecureVec = SecureVec::from_slice(&[1, 2, 3]).unwrap();
    let mut array: SecureArray<3> = SecureArray::try_from(vec).unwrap();
    assert_eq!(array.len(), 3);
    array.unlock(|slice| {
        assert_eq!(slice, &[1, 2, 3]);
    });
}

#[test]
fn array_test_erase() {
    let mut exposed: Vec<u8> = vec![1, 2, 3];
    let mut array: SecureArray<3> = SecureArray::from_slice_mut(&mut exposed).unwrap();
    array.erase();
    array.unlock(|slice| {
        assert_eq!(slice, &[0u8; 3]);
    });
}

#[test]
#[should_panic]
fn test_length_cannot_be_zero() {
    let secure_vec = SecureVec::new().unwrap();
    let _secure_array: SecureArray<0> = SecureArray::try_from(secure_vec).unwrap();
}

#[test]
fn array_lock_unlock() {
    let mut exposed: Vec<u8> = vec![1, 2, 3];
    let mut secure: SecureArray<3> = SecureArray::from_slice_mut(&mut exposed).unwrap();

    let unlocked = secure.unlock_memory();
    assert!(unlocked);

    let locked = secure.lock_memory();
    assert!(locked);
}

#[test]
fn array_test_clone() {
    let mut array1: SecureArray<3> = SecureArray::empty().unwrap();
    array1.unlock_memory();
    array1.set(0, 1);
    array1.set(1, 2);
    array1.set(2, 3);
    array1.lock_memory();

    let mut array2 = array1.clone();

    array2.unlock(|slice| {
        assert_eq!(slice, &[1, 2, 3]);
    });

    array1.unlock(|slice| {
        assert_eq!(slice, &[1, 2, 3]);
    });
}

#[test]
fn array_clone_independent() {
    let mut original: SecureArray<3> = SecureArray::from_slice(&[1, 2, 3]).unwrap();
    let mut copy = original.clone();

    copy.unlock_memory();
    copy.set(1, 99);
    copy.lock_memory();

    original.unlock(|slice| {
        assert_eq!(slice, &[1, 2, 3]);
    });
    copy.unlock(|slice| {
        assert_eq!(slice, &[1, 99, 3]);
    });
}

#[test]
fn test_unlock_mut() {
    let mut exposed: Vec<u8> = vec![1, 2, 3];
    let mut array: SecureArray<3> = SecureArray::from_slice_mut(&mut exposed).unwrap();

    array.unlock_memory();
    array.set(1, 100);
    array.lock_memory();

    array.unlock(|slice| {
        assert_eq!(slice, &[1, 100, 3]);
    });
}

#[test]
fn test_length_mismatch() {
    let vec: SecureVec = SecureVec::from_slice(&[1, 2, 3]).unwrap();
    let result: Result<SecureArray<4>, Error> = SecureArray::try_from(vec);
    match result {
        Err(e) => assert_eq!(e, Error::LengthMismatch),
        Ok(_) => panic!("a length-3 buffer must not convert into a length-4 array"),
    }
}

#[test]
fn test_empty_zero_length_rejected() {
    let result: Result<SecureArray<0>, Error> = SecureArray::empty();
    match result {
        Err(e) => assert_eq!(e, Error::LengthCannotBeZero),
        Ok(_) => panic!("a zero-length array must be rejected"),
    }
}

#[test]
fn test_wire_compatibility() {
    let array: SecureArray<3> = SecureArray::from_slice(&[1, 2, 3]).unwrap();
    let vec: SecureVec = SecureVec::from_slice(&[1, 2, 3]).unwrap();

    let array_wire = array.wire_bytes();
    let vec_wire = vec.wire_bytes();
    assert_eq!(array_wire, vec_wire);

    let array_json = serde_json::to_vec(&array_wire).expect("Serialization failed");
    let vec_json = serde_json::to_vec(&vec_wire).expect("Serialization failed");
    assert_eq!(array_json, vec_json);

    let decoded: Vec<u8> = serde_json::from_slice(&array_json).expect("Deserialization failed");
    assert_eq!(decoded, vec![1, 2, 3]);
}
