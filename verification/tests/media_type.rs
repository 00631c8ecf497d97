use shadow::media_type::{detect, is_generic_container, DEFAULT_CONTENT_TYPE};

#[test]
fn content_signature_overrides_wrong_extension() {
    let content = [
        0x89, b'P', b'N', b'G', 0x0d, 0x0a, 0x1a, 0x0a, 0x00, 0x00, 0x00, 0x0d, b'I', b'H', b'D', b'R',
    ];
    assert_eq!(detect("image.jpg", Some(&content[..])), "image/png");
}

#[test]
fn extension_handles_semantic_text_types() {
    assert_eq!(detect("site.css", Some(&b"body { color: red; }"[..])), "text/css");
}

#[test]
fn unknown_content_uses_binary_default() {
    assert_eq!(detect("README", Some(&b"custom data"[..])), DEFAULT_CONTENT_TYPE);
}

#[test]
fn name_alone_decides_without_content() {
    assert_eq!(detect("photo.png", None), "image/png");
    assert_eq!(detect("blob", None), "application/octet-stream");
}

#[test]
fn generic_containers_yield_to_extension() {
    assert!(is_generic_container("application/zip"));
    assert!(is_generic_container("application/octet-stream"));
    assert!(!is_generic_container("image/png"));
}
