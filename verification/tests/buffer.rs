use redirectionio::filter::Buffer;
use redirectionio::filter::buffer_filter_body::BufferFilterBody;

#[test]
fn to_vec_returns_buffer_contents() {
    let buffer = Buffer::from_vec(vec![1, 2, 3, 4]);
    assert_eq!(buffer.to_vec(), vec![1, 2, 3, 4]);
    assert_eq!(buffer.into_vec(), vec![1, 2, 3, 4]);
}

#[test]
fn duplicate_preserves_contents_and_leaves_original_usable() {
    let buffer = Buffer::from_vec(vec![5, 6, 7]);
    let copy = buffer.duplicate();
    assert_eq!(copy.to_vec(), vec![5, 6, 7]);
    assert_eq!(buffer.to_vec(), vec![5, 6, 7]);
    buffer.into_vec();
    copy.into_vec();
}

#[test]
fn round_trip_with_spare_capacity_matches_allocation_size() {
    let mut vec = Vec::with_capacity(64);
    vec.extend_from_slice(b"hello");
    let buffer = Buffer::from_vec(vec);
    assert_eq!(buffer.into_vec(), b"hello".to_vec());
}

#[test]
fn from_string_round_trips() {
    let buffer = Buffer::from_string("héllo".to_string());
    assert_eq!(buffer.into_vec(), "héllo".as_bytes().to_vec());
}

#[test]
fn default_buffer_is_empty() {
    let buffer = Buffer::default();
    assert!(buffer.to_vec().is_empty());
}

#[test]
fn buffer_filter_holds_the_body_back_until_the_end() {
    let mut filter = BufferFilterBody::default();
    assert!(filter.filter(b"abc".to_vec()).is_empty());
    assert!(filter.filter(b"def".to_vec()).is_empty());
    assert_eq!(filter.end(), b"abcdef".to_vec());
}
