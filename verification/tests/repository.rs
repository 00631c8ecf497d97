use shadow::config::Config;
use shadow::init::ensure_shadow_marker;
use shadow::model::ObjectId;
use shadow::repository::{
    normal_path,
    first_component_is, scan_enters, source_path_from_ref, validate_relative_path, PathError, Repository, RulesError,
    ShadowRules,
};

fn repository(gitignore: &str) -> Repository {
    Repository::from_parts("/work/repo".to_string(), Config::new("test").unwrap(), Some(gitignore.to_string())).unwrap()
}

#[test]
fn scans_only_shadow_section() {
    let repo = repository("*.log\n# shadow\n/assets/**/*.bin\n");
    assert!(repo.is_managed_path("assets/a.bin"));
    assert!(!repo.is_managed_path("assets/a.log"));
}

#[test]
fn maps_ref_paths() {
    let repo = repository("# shadow\n*.bin\n");
    assert_eq!(repo.ref_path("models/a.bin").unwrap(), "/work/repo/.shadow/refs/models/a.bin.ref");
}

#[test]
fn honors_gitignore_negation_in_shadow_section() {
    let repo = repository("# shadow\n/assets/*.bin\n!/assets/keep.bin\n");
    assert!(repo.is_managed_path("assets/a.bin"));
    assert!(!repo.is_managed_path("assets/keep.bin"));
}

#[test]
fn rejects_duplicate_markers() {
    assert!(Repository::from_parts("/work/repo".to_string(), Config::new("test").unwrap(), Some("# shadow\n*.bin\n# shadow\n".to_string()))
        .is_err());
    assert_eq!(
        ShadowRules::load("/work/repo", "# shadow\n*.bin\n# shadow\n").err(),
        Some(RulesError::DuplicateMarker)
    );
}

#[test]
fn no_marker_manages_nothing() {
    let repo = Repository::from_parts("/work/repo".to_string(), Config::new("test").unwrap(), None).unwrap();
    assert!(!repo.is_managed_path("a.bin"));
    let repo = repository("*.bin\n");
    assert!(!repo.is_managed_path("a.bin"));
}

#[test]
fn repository_paths() {
    let repo = repository("# shadow\n*.bin\n");
    assert_eq!(repo.refs_dir(), "/work/repo/.shadow/refs");
    assert_eq!(repo.cache_dir(), "/work/repo/.shadow/cache/objects");
    assert_eq!(repo.tmp_dir(), "/work/repo/.shadow/tmp");
    assert_eq!(repo.gitignore_path(), "/work/repo/.gitignore");
    let oid = ObjectId::from_sha256_hex("ab".repeat(32)).unwrap();
    assert_eq!(
        repo.cache_path(&oid),
        format!("/work/repo/.shadow/cache/objects/sha256/ab/{}", "ab".repeat(31))
    );
    assert_eq!(
        repo.blob_key(&oid).as_str(),
        format!("test/objects/sha256/ab/{}", "ab".repeat(31))
    );
}

#[test]
fn ref_path_rejects_bad_paths() {
    let repo = repository("# shadow\n*.bin\n");
    assert_eq!(repo.ref_path(""), Err(PathError::EmptyOrAbsolute));
    assert_eq!(repo.ref_path("/etc/a.bin"), Err(PathError::EmptyOrAbsolute));
    assert_eq!(repo.ref_path("../a.bin"), Err(PathError::InvalidComponents));
    assert_eq!(repo.ref_path("./a.bin"), Err(PathError::InvalidComponents));
    assert_eq!(validate_relative_path("models/a.bin"), Ok(()));
    assert_eq!(validate_relative_path("a/../b"), Err(PathError::InvalidComponents));
}

#[test]
fn ref_paths_map_back_to_sources() {
    assert_eq!(source_path_from_ref("models/a.bin.ref"), Some("models/a.bin".to_string()));
    assert_eq!(source_path_from_ref("models/a.bin"), None);
    let repo = repository("# shadow\n*.bin\n");
    let ref_path = repo.ref_path("models/a.bin").unwrap();
    let relative = ref_path.strip_prefix("/work/repo/.shadow/refs/").unwrap();
    assert_eq!(source_path_from_ref(relative), Some("models/a.bin".to_string()));
}

#[test]
fn scanning_skips_git_and_shadow_directories() {
    assert!(first_component_is(".git/config", ".git"));
    assert!(!first_component_is("assets/.git", ".git"));
    assert!(!scan_enters(".git"));
    assert!(!scan_enters(".shadow/refs"));
    assert!(scan_enters("assets"));
}

#[test]
fn init_adds_marker_once() {
    assert_eq!(ensure_shadow_marker(""), Some("# shadow\n".to_string()));
    assert_eq!(ensure_shadow_marker("*.log"), Some("*.log\n\n# shadow\n".to_string()));
    assert_eq!(ensure_shadow_marker("*.log\n"), Some("*.log\n\n# shadow\n".to_string()));
    assert_eq!(ensure_shadow_marker("*.log\n# shadow\n*.bin\n"), None);
}

#[test]
fn comments_and_blank_lines_are_not_rules() {
    let repo = repository("# shadow\n# a comment\n\n*.bin   \n");
    assert!(repo.is_managed_path("a.bin"));
    assert!(!repo.is_managed_path("a.txt"));
    let only_comments = repository("# shadow\n# nothing here\n\n");
    assert!(!only_comments.is_managed_path("a.bin"));
    let dotted = Repository::from_parts("./repo".to_string(), Config::new("test").unwrap(), Some("# shadow\n*.bin\n".to_string()))
        .unwrap();
    assert!(dotted.is_managed_path("x/a.bin"));
}

#[test]
fn normal_paths_are_plain_relative_names() {
    assert!(normal_path("assets/a.bin"));
    assert!(normal_path("a.bin"));
    assert!(!normal_path(""));
    assert!(!normal_path("/a.bin"));
    assert!(!normal_path(".//a"));
    assert!(!normal_path("repo//a"));
    assert!(!normal_path("a/../b"));
    assert!(!normal_path("./a"));
    assert!(!normal_path("a/"));
}
