use shadow::backend::{open, OpenError};
use shadow::config::{default_prefix, validate_name, validate_prefix, BackendConfig, Config, ConfigError, INITIAL_DOCUMENT_HEAD};

fn tos(prefix: &str) -> BackendConfig {
    BackendConfig {
        kind: "volcengine_tos".to_string(),
        endpoint: "https://tos-cn-beijing.volces.com".to_string(),
        region: "cn-beijing".to_string(),
        bucket: "assets".to_string(),
        prefix: prefix.to_string(),
    }
}

#[test]
fn rejects_parent_prefix() {
    assert!(validate_prefix("a/../b").is_err());
}

#[test]
fn prefix_rules() {
    assert_eq!(validate_prefix("a/../b"), Err(ConfigError::PrefixParentComponent));
    assert_eq!(validate_prefix(".."), Err(ConfigError::PrefixParentComponent));
    assert_eq!(validate_prefix("/shadow"), Err(ConfigError::PrefixEdgeSlash));
    assert_eq!(validate_prefix("shadow/"), Err(ConfigError::PrefixEdgeSlash));
    assert_eq!(validate_prefix("a..b/c"), Ok(()));
    assert_eq!(validate_prefix(""), Ok(()));
    assert_eq!(validate_prefix("shadow"), Ok(()));
    assert_eq!(default_prefix(), "shadow");
}

#[test]
fn new_config_is_valid() {
    let config = Config::new("my-project").unwrap();
    assert_eq!(config.version, 1);
    assert_eq!(config.name, "my-project");
    assert!(config.backend.is_none());
    assert_eq!(config.validate(), Ok(()));
    assert!(config.initial_document().starts_with(INITIAL_DOCUMENT_HEAD));
    assert!(config.initial_document().starts_with("version = 1\nname = \"my-project\"\n"));
}

#[test]
fn project_names_are_single_key_segments() {
    assert_eq!(validate_name("test"), Ok(()));
    assert_eq!(validate_name("my assets"), Ok(()));
    assert_eq!(validate_name(""), Err(ConfigError::InvalidName));
    assert_eq!(validate_name("  "), Err(ConfigError::InvalidName));
    assert_eq!(validate_name("."), Err(ConfigError::InvalidName));
    assert_eq!(validate_name(".."), Err(ConfigError::InvalidName));
    assert_eq!(validate_name("a/b"), Err(ConfigError::InvalidName));
    assert_eq!(validate_name("a\"b"), Err(ConfigError::InvalidName));
    assert_eq!(validate_name("a\nb"), Err(ConfigError::InvalidName));
    assert!(Config::new("a/b").is_err());
}

#[test]
fn config_validation_errors() {
    let mut config = Config::new("test").unwrap();
    config.version = 2;
    assert_eq!(config.validate(), Err(ConfigError::UnsupportedVersion(2)));
    let mut config = Config::new("test").unwrap();
    config.name = "../x".to_string();
    assert_eq!(config.validate(), Err(ConfigError::InvalidName));
    let mut config = Config::new("test").unwrap();
    let mut backend = tos("shadow");
    backend.kind = "s3".to_string();
    config.backend = Some(backend);
    assert_eq!(config.validate(), Err(ConfigError::UnsupportedBackend("s3".to_string())));
    let mut config = Config::new("test").unwrap();
    let mut backend = tos("shadow");
    backend.bucket = "  ".to_string();
    config.backend = Some(backend);
    assert_eq!(config.validate(), Err(ConfigError::BlankBackendField));
    let mut config = Config::new("test").unwrap();
    config.backend = Some(tos("a/../b"));
    assert_eq!(config.validate(), Err(ConfigError::PrefixParentComponent));
    let mut config = Config::new("test").unwrap();
    config.backend = Some(tos("shadow"));
    assert_eq!(config.validate(), Ok(()));
}

#[test]
fn opens_only_configured_tos_backend() {
    let mut config = Config::new("test").unwrap();
    assert_eq!(open(&config), Err(OpenError::NotConfigured));
    config.backend = Some(tos("shadow"));
    assert_eq!(open(&config), Ok(tos("shadow")));
    let mut other = tos("shadow");
    other.kind = "s3".to_string();
    config.backend = Some(other);
    assert_eq!(open(&config), Err(OpenError::UnsupportedBackend("s3".to_string())));
}
