use secure_types::{
    alloc_block_size, backing_tag, classify_tag, get_header_offset, page_aligned_size,
    AllocBacking, Error, ALLOC_TAG_MALLOC, ALLOC_TAG_MEMFD,
};

#[test]
fn test_classify_tag_roundtrip() {
    assert_eq!(classify_tag(ALLOC_TAG_MEMFD), Some(AllocBacking::SecretMemory));
    assert_eq!(classify_tag(ALLOC_TAG_MALLOC), Some(AllocBacking::SecureMalloc));
    assert_eq!(classify_tag(0), None);
    assert_eq!(classify_tag(0x1234_5678), None);
    assert_eq!(classify_tag(backing_tag(AllocBacking::SecretMemory)), Some(
        AllocBacking::SecretMemory,
    ));
    assert_eq!(classify_tag(backing_tag(AllocBacking::SecureMalloc)), Some(
        AllocBacking::SecureMalloc,
    ));
}

#[test]
fn test_header_offset_bytes() {
    let word = core::mem::size_of::<usize>();
    assert_eq!(get_header_offset::<u8>(), word);
    assert_eq!(get_header_offset::<u64>(), word.max(core::mem::align_of::<u64>()));
    assert_eq!(get_header_offset::<[u8; 32]>(), word);
}

#[test]
fn test_page_aligned_size_values() {
    assert_eq!(page_aligned_size(0, 4096), 0);
    assert_eq!(page_aligned_size(1, 4096), 4096);
    assert_eq!(page_aligned_size(4096, 4096), 4096);
    assert_eq!(page_aligned_size(5000, 4096), 8192);
}

#[test]
fn test_alloc_block_size_values() {
    let word = core::mem::size_of::<usize>();
    // one tag header in front of the data, padded to the common alignment
    let total = alloc_block_size::<u8>(100).unwrap();
    assert!(total >= 100 + word);
    assert_eq!(total % word, 0);
    assert_eq!(alloc_block_size::<u8>(0).unwrap(), word);
}

#[test]
fn test_alloc_block_size_overflow() {
    let result = alloc_block_size::<u8>(usize::MAX);
    assert_eq!(result.unwrap_err(), Error::AllocationFailed);
}
