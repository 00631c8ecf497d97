use shadow::digest::{to_hex, ContentHasher};

#[test]
fn hashes_content_in_chunks() {
    let mut hasher = ContentHasher::new();
    hasher.update(b"hel");
    hasher.update(b"lo");
    let (oid, size) = hasher.finish();
    assert_eq!(oid.hex(), "2cf24dba5fb0a30e26e83b2ac5b9e29e1b161e5c1fa7425e73043362938b9824");
    assert_eq!(size, 5);
}

#[test]
fn hashes_empty_content() {
    let (oid, size) = ContentHasher::new().finish();
    assert_eq!(oid.hex(), "e3b0c44298fc1c149afbf4c8996fb92427ae41e4649b934ca495991b7852b855");
    assert_eq!(size, 0);
}

#[test]
fn writes_lowercase_hex() {
    assert_eq!(to_hex(&vec![0x00, 0xab, 0x0f, 0xff]), "00ab0fff");
}
