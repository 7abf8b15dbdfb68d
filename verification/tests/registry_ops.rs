use dpm_core::error::CoreError;
use dpm_core::registry::Dependency;
use dpm_core::registry::PackageBasicInfo;
use dpm_core::registry::PackageInfo;
use dpm_core::registry::RepoInfo;
use dpm_core::sync::check_download_status;
use dpm_core::sync::verify_hash;

fn sample_repo() -> RepoInfo {
    let mut repo = RepoInfo::new();
    repo.add_package(
        "package1".to_string(),
        "http://example.com".to_string(),
        "file1.zip".to_string(),
        "1.0.0".to_string(),
        "hash123".to_string(),
        None,
        None,
        None,
    );
    repo
}

#[test]
fn test_add_package() {
    let repo = sample_repo();

    assert!(repo.has_package("package1"));
    let package = repo.get_package("package1").unwrap();
    assert_eq!(package.version, "1.0.0");
    assert_eq!(package.url, "http://example.com");
}

#[test]
fn test_remove_package() {
    let mut repo = sample_repo();

    let removed_package = repo.remove_package("package1").unwrap();
    assert_eq!(removed_package.version, "1.0.0");
    assert!(!repo.has_package("package1"));
}

#[test]
fn test_update_package() {
    let mut repo = sample_repo();

    repo.update_package(
        "package1",
        Some("http://example.com/new".to_string()),
        None,
        Some("2.0.0".to_string()),
        None,
        None,
        None,
        None,
    );

    let package = repo.get_package("package1").unwrap();
    assert_eq!(package.url, "http://example.com/new");
    assert_eq!(package.version, "2.0.0");
}

#[test]
fn test_get_package_not_found() {
    let repo = RepoInfo::new();
    let result = repo.get_package("nonexistent");
    assert!(result.is_err());
    assert!(matches!(result, Err(CoreError::PackageNotFound(n)) if n == "nonexistent"));
}

#[test]
fn test_repeated_add_keeps_last_entry_only() {
    let mut repo = RepoInfo::new();
    for round in 0..4 {
        repo.add_package(
            "pkg".to_string(),
            format!("http://host/{round}"),
            "f.zip".to_string(),
            format!("0.{round}.0"),
            format!("h{round}"),
            Some(vec![Dependency::new("dep", "1.0.0")]),
            None,
            None,
        );
    }
    assert!(repo.has_package("pkg"));
    let package = repo.get_package("pkg").unwrap();
    assert_eq!(package.url, "http://host/3");
    assert_eq!(package.version, "0.3.0");
    assert_eq!(package.hash, "h3");
}

#[test]
fn test_update_missing_creates_with_defaults() {
    let mut repo = RepoInfo::new();
    repo.update_package(
        "fresh",
        None,
        None,
        Some("3.1.4".to_string()),
        None,
        Some(vec![Dependency::new("ignored", "0.0.1")]),
        None,
        None,
    );
    let package = repo.get_package("fresh").unwrap();
    assert_eq!(package.url, "");
    assert_eq!(package.file_name, "");
    assert_eq!(package.version, "3.1.4");
    assert_eq!(package.hash, "");
    assert!(package.dependencies.is_none());
    assert!(package.entry.is_none());
    assert!(package.description.is_none());
}

#[test]
fn test_partial_update_preserves_untouched_fields() {
    let mut repo = RepoInfo::new();
    repo.add_package(
        "pkg".to_string(),
        "http://host/a.zip".to_string(),
        "a.zip".to_string(),
        "1.0.0".to_string(),
        "aaa111".to_string(),
        Some(vec![Dependency::new("base", "2.0.0")]),
        Some("run.sh".to_string()),
        Some("a package".to_string()),
    );
    repo.update_package("pkg", None, None, Some("1.1.0".to_string()), None, None, None, None);
    let package = repo.get_package("pkg").unwrap();
    assert_eq!(package.version, "1.1.0");
    assert_eq!(package.url, "http://host/a.zip");
    assert_eq!(package.file_name, "a.zip");
    assert_eq!(package.hash, "aaa111");
    let deps = package.dependencies.as_ref().unwrap();
    assert_eq!(deps.len(), 1);
    assert_eq!(deps[0].name, "base");
    assert_eq!(deps[0].version, "2.0.0");
    assert_eq!(package.entry.as_deref(), Some("run.sh"));
    assert_eq!(package.description.as_deref(), Some("a package"));
}

#[test]
fn test_remove_then_lookup() {
    let mut repo = sample_repo();
    let removed = repo.remove_package("package1").unwrap();
    assert_eq!(removed.url, "http://example.com");
    assert!(!repo.has_package("package1"));
    let again = repo.remove_package("package1");
    assert!(matches!(again, Err(CoreError::PackageNotFound(n)) if n == "package1"));
}

#[test]
fn test_full_replace_refresh() {
    let mut local = RepoInfo::new();
    local.add_package(
        "a".to_string(),
        "http://host/a".to_string(),
        "a.zip".to_string(),
        "1.0.0".to_string(),
        "ha".to_string(),
        None,
        None,
        None,
    );
    local.add_package(
        "b".to_string(),
        "http://host/b".to_string(),
        "b.zip".to_string(),
        "1.0.0".to_string(),
        "hb".to_string(),
        None,
        None,
        None,
    );

    let mut remote = RepoInfo::new();
    remote.add_package(
        "b".to_string(),
        "http://host/b2".to_string(),
        "b2.zip".to_string(),
        "2.0.0".to_string(),
        "hb2".to_string(),
        None,
        None,
        None,
    );
    remote.add_package(
        "c".to_string(),
        "http://host/c".to_string(),
        "c.zip".to_string(),
        "1.0.0".to_string(),
        "hc".to_string(),
        None,
        None,
        None,
    );

    local.apply_refresh(remote);
    assert!(!local.has_package("a"));
    let b = local.get_package("b").unwrap();
    assert_eq!(b.version, "2.0.0");
    assert_eq!(b.url, "http://host/b2");
    assert!(local.has_package("c"));
    assert_eq!(local.get_package_handler().len(), 2);
}

#[test]
fn test_add_then_partial_update_example() {
    let mut repo = RepoInfo::new();
    repo.add_package(
        "pkgX".to_string(),
        "http://h/f.zip".to_string(),
        "f.zip".to_string(),
        "1.0.0".to_string(),
        "h123".to_string(),
        None,
        None,
        None,
    );
    assert!(repo.has_package("pkgX"));
    assert_eq!(repo.get_package("pkgX").unwrap().version, "1.0.0");

    repo.update_package("pkgX", Some("http://h/new.zip".to_string()), None, None, None, None, None, None);
    let package = repo.get_package("pkgX").unwrap();
    assert_eq!(package.url, "http://h/new.zip");
    assert_eq!(package.version, "1.0.0");
}

#[test]
fn test_descriptor_url_substitution() {
    let mut repo = RepoInfo::new();
    repo.add_package(
        "pkgX".to_string(),
        "http://h/f.zip".to_string(),
        "f.zip".to_string(),
        "1.0.0".to_string(),
        "h123".to_string(),
        None,
        None,
        None,
    );
    let url = repo.descriptor_url("pkgX").unwrap();
    assert_eq!(url, "http://h/src/pkgX/packageInfo.json");

    let missing = repo.descriptor_url("other");
    assert!(matches!(missing, Err(CoreError::PackageNotFound(n)) if n == "other"));
}

#[test]
fn test_download_plan() {
    let repo = sample_repo();
    let (url, file_name) = repo.download_plan("package1").unwrap();
    assert_eq!(url, "http://example.com");
    assert_eq!(file_name, "file1.zip");
    assert!(matches!(
        repo.download_plan("nope"),
        Err(CoreError::PackageNotFound(n)) if n == "nope"
    ));
}

#[test]
fn test_check_download_status() {
    assert!(check_download_status(200, "p").is_ok());
    assert!(check_download_status(299, "p").is_ok());
    let e = check_download_status(404, "p");
    assert!(matches!(e, Err(CoreError::NetworkError(m)) if m.contains("p")));
    assert!(check_download_status(300, "p").is_err());
    assert!(check_download_status(199, "p").is_err());
}

#[test]
fn test_verify_hash() {
    assert!(verify_hash("abc", "abc").is_ok());
    let e = verify_hash("abc", "abd");
    match e {
        Err(CoreError::HashMismatch { expected, actual }) => {
            assert_eq!(expected, "abc");
            assert_eq!(actual, "abd");
        },
        _ => panic!("expected a hash mismatch"),
    }
}

#[test]
fn test_package_info_new() {
    let info = PackageInfo::new(
        "p".to_string(),
        "p.zip".to_string(),
        "0.1.0".to_string(),
        "text".to_string(),
        "h".to_string(),
        Some(vec![Dependency::new("q", "1.2.3")]),
    );
    assert_eq!(info.package_name, "p");
    assert_eq!(info.file_name, "p.zip");
    assert_eq!(info.version, "0.1.0");
    assert_eq!(info.description, "text");
    assert_eq!(info.hash, "h");
    assert_eq!(info.dependencies.as_ref().unwrap()[0].name, "q");
}

#[test]
fn test_dependency_new() {
    let dep = Dependency::new("serde", "1.0.0");
    assert_eq!(dep.name, "serde");
    assert_eq!(dep.version, "1.0.0");
}

#[test]
fn test_add_package_with_info() {
    let mut repo = RepoInfo::new();
    let info = PackageBasicInfo {
        url: "http://host/z".to_string(),
        file_name: "z.zip".to_string(),
        version: "9.9.9".to_string(),
        hash: "hz".to_string(),
        dependencies: None,
        entry: None,
        description: None,
    };
    repo.add_package_with_info("z".to_string(), info);
    assert!(repo.has_package("z"));
    assert_eq!(repo.get_package("z").unwrap().version, "9.9.9");
}
