use shadow::model::{BlobKey, ModelError, ObjectId, RefDocument, ShadowRef, UploadOptions, DEFAULT_CACHE_CONTROL};

fn document_from_toml(text: &str) -> RefDocument {
    let table: toml::Table = text.parse().unwrap();
    RefDocument {
        version: table.get("version").and_then(|v| v.as_integer()).unwrap() as u32,
        oid: table.get("oid").and_then(|v| v.as_str()).unwrap().to_string(),
        size: table.get("size").and_then(|v| v.as_integer()).unwrap() as u64,
        content_type: table.get("content_type").and_then(|v| v.as_str()).map(|s| s.to_string()),
    }
}

fn document_to_toml(document: &RefDocument) -> String {
    let mut table = toml::Table::new();
    table.insert("version".to_string(), toml::Value::Integer(document.version as i64));
    table.insert("oid".to_string(), toml::Value::String(document.oid.clone()));
    table.insert("size".to_string(), toml::Value::Integer(document.size as i64));
    if let Some(content_type) = &document.content_type {
        table.insert("content_type".to_string(), toml::Value::String(content_type.clone()));
    }
    toml::to_string(&table).unwrap()
}

#[test]
fn validates_object_ids() {
    let oid = ObjectId::from_sha256_hex("a".repeat(64)).unwrap();
    assert_eq!(oid.to_string(), format!("sha256:{}", "a".repeat(64)));
    assert!(ObjectId::parse("md5:abc").is_err());
}

#[test]
fn ref_round_trip() {
    let reference = ShadowRef {
        oid: ObjectId::from_sha256_hex("b".repeat(64)).unwrap(),
        size: 42,
        content_type: Some("image/png".to_string()),
    };
    let text = document_to_toml(&reference.serialize());
    assert_eq!(ShadowRef::parse(&document_from_toml(&text)).unwrap(), reference);
}

#[test]
fn parses_legacy_ref_without_content_type() {
    let reference = ShadowRef::parse(&document_from_toml(&format!(
        "version = 1\noid = \"sha256:{}\"\nsize = 42\n",
        "b".repeat(64)
    )))
    .unwrap();
    assert_eq!(reference.content_type, None);
}

#[test]
fn builds_project_scoped_blob_key() {
    let oid = ObjectId::from_sha256_hex("a".repeat(64)).unwrap();
    assert_eq!(
        BlobKey::for_object("my-project", &oid).as_str(),
        format!("my-project/objects/sha256/aa/{}", "a".repeat(62))
    );
}

#[test]
fn object_id_lowercases_and_rejects_bad_digests() {
    let oid = ObjectId::from_sha256_hex("AB".repeat(32)).unwrap();
    assert_eq!(oid.hex(), "ab".repeat(32));
    assert_eq!(oid.as_ref_value(), format!("sha256:{}", "ab".repeat(32)));
    assert_eq!(ObjectId::from_sha256_hex("a".repeat(63)), Err(ModelError::InvalidDigest));
    assert_eq!(ObjectId::from_sha256_hex(format!("{}g", "a".repeat(63))), Err(ModelError::InvalidDigest));
    assert_eq!(ObjectId::parse("sha256:xyz"), Err(ModelError::InvalidDigest));
    assert_eq!(ObjectId::parse("md5:abc"), Err(ModelError::MissingAlgorithmTag));
    let parsed = ObjectId::parse(&format!("sha256:{}", "C".repeat(64))).unwrap();
    assert_eq!(parsed.hex(), "c".repeat(64));
}

#[test]
fn ref_parse_errors() {
    let good = format!("sha256:{}", "b".repeat(64));
    let wrong_version = RefDocument { version: 2, oid: good.clone(), size: 1, content_type: None };
    assert_eq!(ShadowRef::parse(&wrong_version), Err(ModelError::UnsupportedRefVersion(2)));
    let bad_type = RefDocument { version: 1, oid: good.clone(), size: 1, content_type: Some("not a type".to_string()) };
    assert_eq!(ShadowRef::parse(&bad_type), Err(ModelError::InvalidContentType("not a type".to_string())));
    let bad_oid = RefDocument { version: 1, oid: "b".repeat(64), size: 1, content_type: None };
    assert_eq!(ShadowRef::parse(&bad_oid), Err(ModelError::MissingAlgorithmTag));
    let typed = RefDocument { version: 1, oid: good, size: 7, content_type: Some("text/css".to_string()) };
    let reference = ShadowRef::parse(&typed).unwrap();
    assert_eq!(reference.size, 7);
    assert_eq!(reference.content_type.as_deref(), Some("text/css"));
}

#[test]
fn serialize_writes_version_one_and_tagged_oid() {
    let reference = ShadowRef { oid: ObjectId::from_sha256_hex("c".repeat(64)).unwrap(), size: 5, content_type: None };
    let document = reference.serialize();
    assert_eq!(
        document,
        RefDocument { version: 1, oid: format!("sha256:{}", "c".repeat(64)), size: 5, content_type: None }
    );
    assert_eq!(ShadowRef::parse(&document).unwrap(), reference);
}

#[test]
fn upload_options_carry_default_cache_control() {
    let options = UploadOptions::new("image/png");
    assert_eq!(options.content_type, "image/png");
    assert_eq!(options.cache_control, DEFAULT_CACHE_CONTROL);
    assert_eq!(DEFAULT_CACHE_CONTROL, "max-age=31536000, immutable");
}
