use kv_transport::protocol::Hasher;
use std::hash::Hasher as StdHasher;

#[test]
fn hash_is_the_same_for_the_same_bytes() {
    let bytes = b"some bytes that hold no response".to_vec();
    assert_eq!(Hasher::hash(&bytes), Hasher::hash(&bytes.clone()));
    assert_eq!(Hasher::hash(&[]), Hasher::hash(&Vec::new()));
}

#[test]
fn hash_tells_different_bytes_apart() {
    assert_ne!(Hasher::hash(b"a"), Hasher::hash(b"b"));
    assert_ne!(Hasher::hash(b""), Hasher::hash(b"\0"));
}

#[test]
fn hash_is_that_of_one_write_to_the_default_hasher() {
    let mut state = std::collections::hash_map::DefaultHasher::new();
    state.write(b"hello");
    assert_eq!(Hasher::hash(b"hello"), state.finish());
}
