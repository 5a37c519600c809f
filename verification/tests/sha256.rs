use decster::sha256::{hash_walk, Sha256Hash};
use sha2::Digest;

#[test]
fn known_digest() {
    let hash = Sha256Hash::from_bytes(b"abc");
    assert_eq!(
        hash.to_hex(),
        "ba7816bf8f01cfea414140de5dae2223b00361a396177a9cb410ff61f20015ad"
    );
    let expected: [u8; 32] = sha2::Sha256::digest(b"abc").into();
    assert_eq!(hash.as_array(), expected);
}

#[test]
fn empty_digest() {
    assert_eq!(
        Sha256Hash::from_bytes(b"").to_hex(),
        "e3b0c44298fc1c149afbf4c8996fb92427ae41e4649b934ca495991b7852b855"
    );
}

#[test]
fn hex_roundtrip() {
    let hash = Sha256Hash::from_bytes(b"decster");
    assert_eq!(Sha256Hash::from_hex(&hash.to_hex()), Some(hash));
    assert!(hash.hash_eq(&Sha256Hash::from_array(hash.as_array())));
}

#[test]
fn bad_hex() {
    assert_eq!(Sha256Hash::from_hex("xyz"), None);
    assert_eq!(Sha256Hash::from_hex(&"g".repeat(64)), None);
    assert_eq!(Sha256Hash::from_hex(&"0".repeat(63)), None);
}

#[test]
fn walk_hash_folds_names_and_contents() {
    let file_hash = Sha256Hash::from_bytes(b"hi");
    let mut bytes = b"".to_vec();
    bytes.extend_from_slice(b"a");
    bytes.extend_from_slice(&file_hash.as_array());
    let entries = vec![(b"".to_vec(), None), (b"a".to_vec(), Some(b"hi".to_vec()))];
    assert_eq!(hash_walk(&entries), Sha256Hash::from_bytes(&bytes));
    assert_eq!(hash_walk(&vec![]), Sha256Hash::from_bytes(b""));
    assert_ne!(hash_walk(&entries), hash_walk(&vec![(b"".to_vec(), None), (b"b".to_vec(), Some(b"hi".to_vec()))]));
}
