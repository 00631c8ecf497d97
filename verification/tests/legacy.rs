use shadow::legacy::{report_clean, untracked};
use shadow::legacy::{
    get_metadata_path, get_object_path_components, get_s3_key, has_entry, needs_download, normalize_separators,
    parse_hash, pointer_state, shadowtrack_patterns, tag_hash, trim, ObjectMetadata, PointerState, StagingIndex,
};

#[test]
fn strips_digest_tag() {
    assert_eq!(parse_hash("sha256:abcd"), "abcd");
    assert_eq!(parse_hash("abcd"), "abcd");
    assert_eq!(parse_hash("sha256"), "sha256");
    assert_eq!(tag_hash("abcd"), "sha256:abcd");
    assert_eq!(tag_hash("sha256:abcd"), "sha256:abcd");
}

#[test]
fn object_paths_split_after_two_bytes() {
    assert_eq!(get_object_path_components("sha256:abcdef"), "objects/ab/cdef");
    assert_eq!(get_object_path_components("abc"), "objects/abc");
    assert_eq!(get_object_path_components(""), "objects/");
    assert_eq!(get_object_path_components("éxyz"), "objects/é/xyz");
    assert_eq!(get_metadata_path("/repo", "sha256:abcdef"), "/repo/.shadow/objects/ab/cdef");
    assert_eq!(get_s3_key("sha256:abcdef"), "objects/ab/cdef");
    assert_eq!(get_s3_key(""), "objects");
    assert_eq!(get_s3_key("abc/./d"), "objects/ab/c/d");
    assert_eq!(get_s3_key("/abs"), "//a/bs");
}

#[test]
fn staging_index_adds_replaces_and_removes() {
    let mut index = StagingIndex::new();
    index.add("a.bin".to_string(), ObjectMetadata::created("sha256:aa".to_string(), 1, 10));
    index.add("b.bin".to_string(), ObjectMetadata::created("sha256:bb".to_string(), 2, 10));
    index.add("a.bin".to_string(), ObjectMetadata::created("sha256:cc".to_string(), 3, 11));
    assert_eq!(index.entries().len(), 2);
    assert_eq!(index.get("a.bin").map(|m| m.hash.clone()), Some("sha256:cc".to_string()));
    assert_eq!(index.get("a.bin").map(|m| m.size), Some(3));
    index.remove("a.bin");
    assert!(index.get("a.bin").is_none());
    assert_eq!(index.get("b.bin").map(|m| m.size), Some(2));
    index.remove("missing.bin");
    assert_eq!(index.entries().len(), 1);
}

#[test]
fn object_metadata_records_algorithm() {
    let metadata = ObjectMetadata::new("sha256:aa".to_string(), 5);
    assert_eq!(metadata.algorithm, "sha256");
    assert_eq!(metadata.hash, "sha256:aa");
    assert_eq!(metadata.size, 5);
    assert!(metadata.created_at > 1_600_000_000);
}

#[test]
fn ignore_entries_are_found_by_trimmed_line() {
    assert_eq!(normalize_separators("a\\b\\c.bin"), "a/b/c.bin");
    assert_eq!(trim("  x y \t"), "x y");
    assert!(has_entry("one\n  a/b.bin  \r\nthree", "a\\b.bin"));
    assert!(!has_entry("one\na/b.binx\n", "a/b.bin"));
    assert!(!has_entry("", "a.bin"));
}

#[test]
fn shadowtrack_skips_blank_and_comment_lines() {
    assert_eq!(
        shadowtrack_patterns("# comment\n\n  *.bin  \nassets/**\n   \n#x\n"),
        vec!["*.bin".to_string(), "assets/**".to_string()]
    );
}

#[test]
fn pull_and_status_decisions() {
    assert!(needs_download(None, "abcd"));
    assert!(!needs_download(Some("abcd"), "abcd"));
    assert!(!needs_download(Some("abcd"), "sha256:abcd"));
    assert!(needs_download(Some("abce"), "sha256:abcd"));
    assert_eq!(pointer_state(None, "sha256:abcd", true), PointerState::Missing);
    assert_eq!(pointer_state(Some("abce"), "sha256:abcd", true), PointerState::Modified);
    assert_eq!(pointer_state(Some("abcd"), "sha256:abcd", false), PointerState::NoMetadata);
    assert_eq!(pointer_state(Some("abcd"), "sha256:abcd", true), PointerState::Current);
}

#[test]
fn legacy_status_untracked_and_clean() {
    let sources = vec!["a.bin".to_string(), "b.bin".to_string()];
    let pointers = vec!["a.bin.shadow".to_string()];
    assert_eq!(untracked(&sources, &pointers), vec!["b.bin".to_string()]);
    assert!(report_clean(0, &vec![PointerState::Current, PointerState::NoMetadata], 0));
    assert!(!report_clean(0, &vec![PointerState::Modified], 0));
    assert!(!report_clean(1, &vec![], 0));
    assert!(!report_clean(0, &vec![], 2));
}
