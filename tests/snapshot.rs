use futura_backend::{decode_snapshot, encode_snapshot, StoreError};

#[test]
fn blob_layout_is_length_prefixed() {
    let entries = vec![(vec![7u8], vec![1u8, 2])];
    let blob = encode_snapshot(&entries);
    assert_eq!(
        blob,
        vec![1, 0, 0, 0, 0, 0, 0, 0, 7, 2, 0, 0, 0, 0, 0, 0, 0, 1, 2]
    );
}

#[test]
fn blob_round_trips() {
    let entries = vec![
        (vec![1u8, 2, 3], vec![9u8; 300]),
        (vec![], vec![]),
        (vec![4u8], vec![5u8, 6]),
    ];
    let blob = encode_snapshot(&entries);
    assert_eq!(decode_snapshot(&blob), Ok(entries));
}

#[test]
fn empty_blob_holds_no_entries() {
    assert!(encode_snapshot(&vec![]).is_empty());
    assert_eq!(decode_snapshot(&vec![]), Ok(vec![]));
}

#[test]
fn truncated_blob_is_corrupt() {
    let entries = vec![(vec![1u8, 2], vec![3u8, 4, 5])];
    let mut blob = encode_snapshot(&entries);
    blob.pop();
    assert_eq!(decode_snapshot(&blob), Err(StoreError::CorruptRecord));
    assert_eq!(decode_snapshot(&vec![1, 0, 0]), Err(StoreError::CorruptRecord));
}

#[test]
fn overlong_length_is_corrupt() {
    let blob = vec![255u8, 255, 255, 255, 255, 255, 255, 255, 1];
    assert_eq!(decode_snapshot(&blob), Err(StoreError::CorruptRecord));
}
