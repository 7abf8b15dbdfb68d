use dpm_core::doc::JsonDoc;
use dpm_core::error::CoreError;
use dpm_core::registry::Dependency;
use dpm_core::registry::PackageInfo;
use dpm_core::registry::RepoInfo;

fn value_to_doc(v: &serde_json::Value) -> JsonDoc {
    match v {
        serde_json::Value::Null => JsonDoc::Null,
        serde_json::Value::String(s) => JsonDoc::Text(s.clone()),
        serde_json::Value::Array(items) => {
            JsonDoc::List(items.iter().map(value_to_doc).collect())
        },
        serde_json::Value::Object(map) => JsonDoc::Object(
            map.iter().map(|(k, val)| (k.clone(), value_to_doc(val))).collect(),
        ),
        _ => panic!("scalar kind outside the catalog's document format"),
    }
}

fn doc_to_value(d: &JsonDoc) -> serde_json::Value {
    match d {
        JsonDoc::Null => serde_json::Value::Null,
        JsonDoc::Text(s) => serde_json::Value::String(s.clone()),
        JsonDoc::List(items) => serde_json::Value::Array(items.iter().map(doc_to_value).collect()),
        JsonDoc::Object(fields) => {
            let mut map = serde_json::Map::new();
            for (k, val) in fields {
                map.insert(k.clone(), doc_to_value(val));
            }
            serde_json::Value::Object(map)
        },
    }
}

fn parse_package_info(text: &str) -> Result<PackageInfo, CoreError> {
    let value: serde_json::Value =
        serde_json::from_str(text).map_err(|e| CoreError::JsonError(e.to_string()))?;
    PackageInfo::from_doc(&value_to_doc(&value))
}

const PACKAGE_INFO_TEXT: &str = r#"{
        "package_name": "test_package",
        "file_name": "test_file.zip",
        "version": "1.0.0",
        "description": "A test package",
        "hash": "hash123",
        "dependencies": null
    }"#;

#[test]
fn test_from_json() {
    let package_info = parse_package_info(PACKAGE_INFO_TEXT).unwrap();
    assert_eq!(package_info.package_name, "test_package");
    assert_eq!(package_info.version, "1.0.0");
}

#[test]
fn test_to_json() {
    let package_info = PackageInfo::new(
        "test_package".to_string(),
        "test_file.zip".to_string(),
        "1.0.0".to_string(),
        "A test package".to_string(),
        "hash123".to_string(),
        None,
    );

    let written_content =
        serde_json::to_string_pretty(&doc_to_value(&package_info.to_doc())).unwrap();
    assert!(written_content.contains("\"package_name\": \"test_package\""));
}

#[test]
fn test_from_str_to() {
    let package_info = parse_package_info(PACKAGE_INFO_TEXT).unwrap();
    assert_eq!(package_info.package_name, "test_package");
    assert_eq!(package_info.version, "1.0.0");
}

#[test]
fn test_dependency_serde() {
    let dependency = Dependency {
        name: "serde".to_string(),
        version: "1.0.0".to_string(),
    };

    let serialized = serde_json::to_string(&doc_to_value(&dependency.to_doc())).unwrap();
    assert!(serialized.contains("\"name\":\"serde\""));

    let value: serde_json::Value = serde_json::from_str(&serialized).unwrap();
    let deserialized = Dependency::from_doc(&value_to_doc(&value)).unwrap();
    assert_eq!(deserialized.name, "serde");
    assert_eq!(deserialized.version, "1.0.0");
}

#[test]
fn test_registry_document_round_trip() {
    let mut repo = RepoInfo::new();
    repo.add_package(
        "alpha".to_string(),
        "http://host/alpha.zip".to_string(),
        "alpha.zip".to_string(),
        "1.0.0".to_string(),
        "ha".to_string(),
        None,
        None,
        None,
    );
    repo.add_package(
        "beta".to_string(),
        "http://host/beta.zip".to_string(),
        "beta.zip".to_string(),
        "2.0.0".to_string(),
        "hb".to_string(),
        Some(vec![Dependency::new("alpha", "1.0.0"), Dependency::new("gamma", "0.1.0")]),
        Some("main.sh".to_string()),
        Some("the beta package".to_string()),
    );

    let text = serde_json::to_string_pretty(&doc_to_value(&repo.to_doc())).unwrap();
    let value: serde_json::Value = serde_json::from_str(&text).unwrap();
    let back = RepoInfo::from_doc(&value_to_doc(&value)).unwrap();

    assert_eq!(back.get_package_handler().len(), 2);
    let alpha = back.get_package("alpha").unwrap();
    assert_eq!(alpha.url, "http://host/alpha.zip");
    assert_eq!(alpha.file_name, "alpha.zip");
    assert_eq!(alpha.version, "1.0.0");
    assert_eq!(alpha.hash, "ha");
    assert!(alpha.dependencies.is_none());
    assert!(alpha.entry.is_none());
    assert!(alpha.description.is_none());
    let beta = back.get_package("beta").unwrap();
    assert_eq!(beta.url, "http://host/beta.zip");
    assert_eq!(beta.version, "2.0.0");
    let deps = beta.dependencies.as_ref().unwrap();
    assert_eq!(deps.len(), 2);
    assert_eq!(deps[0].name, "alpha");
    assert_eq!(deps[1].name, "gamma");
    assert_eq!(beta.entry.as_deref(), Some("main.sh"));
    assert_eq!(beta.description.as_deref(), Some("the beta package"));

    // An absent optional field is omitted from the document, not written as null.
    assert!(!text.contains("entry\": null"));
}

#[test]
fn test_null_dependencies_round_trip_to_absent() {
    let text = r#"{ "packages": { "p": {
        "url": "http://h/p.zip",
        "file_name": "p.zip",
        "version": "1.0.0",
        "hash": "hp",
        "dependencies": null
    } } }"#;
    let value: serde_json::Value = serde_json::from_str(text).unwrap();
    let repo = RepoInfo::from_doc(&value_to_doc(&value)).unwrap();
    let p = repo.get_package("p").unwrap();
    assert!(p.dependencies.is_none());

    let again = serde_json::to_string(&doc_to_value(&repo.to_doc())).unwrap();
    assert!(again.contains("\"dependencies\":null"));
}

#[test]
fn test_registry_document_missing_field_is_error() {
    let text = r#"{ "packages": { "p": {
        "url": "http://h/p.zip",
        "version": "1.0.0",
        "hash": "hp",
        "dependencies": null
    } } }"#;
    let value: serde_json::Value = serde_json::from_str(text).unwrap();
    let repo = RepoInfo::from_doc(&value_to_doc(&value));
    assert!(matches!(repo, Err(CoreError::JsonError(_))));
}

#[test]
fn test_registry_document_wrong_shape_is_error() {
    let value: serde_json::Value = serde_json::from_str(r#"{ "packages": "oops" }"#).unwrap();
    assert!(RepoInfo::from_doc(&value_to_doc(&value)).is_err());

    let value: serde_json::Value = serde_json::from_str("{}").unwrap();
    assert!(RepoInfo::from_doc(&value_to_doc(&value)).is_err());
}

#[test]
fn test_bad_dependency_element_is_error() {
    let text = r#"{
        "package_name": "p",
        "file_name": "p.zip",
        "version": "1.0.0",
        "description": "d",
        "hash": "hp",
        "dependencies": [ { "name": "q" } ]
    }"#;
    let result = parse_package_info(text);
    assert!(matches!(result, Err(CoreError::JsonError(_))));
}

#[test]
fn test_package_info_document_round_trip() {
    let info = PackageInfo::new(
        "p".to_string(),
        "p.zip".to_string(),
        "1.2.3".to_string(),
        "words".to_string(),
        "hp".to_string(),
        Some(vec![Dependency::new("q", "0.0.1")]),
    );
    let text = serde_json::to_string(&doc_to_value(&info.to_doc())).unwrap();
    let back = parse_package_info(&text).unwrap();
    assert_eq!(back.package_name, "p");
    assert_eq!(back.file_name, "p.zip");
    assert_eq!(back.version, "1.2.3");
    assert_eq!(back.description, "words");
    assert_eq!(back.hash, "hp");
    assert_eq!(back.dependencies.as_ref().unwrap()[0].version, "0.0.1");
}
