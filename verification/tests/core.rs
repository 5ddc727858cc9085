use buffrs::Error;
use buffrs::commands;
use buffrs::credentials::SecretStore;
use buffrs::docs;
use buffrs::id::PackageId;
use buffrs::manifest::{format_dependency, parse_dependency};
use buffrs::registry::{Artifactory, ArtifactoryConfig, Config, Method, artifact_uri};
use buffrs::store::{Package, PackageStore};

fn pkg_id(s: &str) -> PackageId {
    PackageId::new(s.to_owned()).expect("valid package id")
}

fn pkg(name: &str, version: &str, bytes: &[u8]) -> Package {
    Package { name: pkg_id(name), version: version.to_owned(), tgz: bytes.to_vec() }
}

fn logged_in(url: &str, user: &str, pass: &str) -> (Config, SecretStore) {
    let mut config = Config { artifactory: None };
    let mut secrets = SecretStore::new();
    commands::login(&mut config, &mut secrets, url.to_owned(), user.to_owned(), pass.to_owned())
        .expect("login");
    (config, secrets)
}

#[test]
fn parse_valid_spec_round_trips() {
    let dep = parse_dependency("org-proto-stable/foo@1.0.0").expect("valid spec");
    assert_eq!(dep.repository, "org-proto-stable");
    assert_eq!(dep.package.as_str(), "foo");
    assert_eq!(dep.version, "1.0.0");
    assert_eq!(format_dependency(&dep), "org-proto-stable/foo@1.0.0");
}

#[test]
fn parse_tagged_version_round_trips() {
    let dep = parse_dependency("team-proto-dev/my-api@2.1.0-alpha.3").expect("valid spec");
    assert_eq!(format_dependency(&dep), "team-proto-dev/my-api@2.1.0-alpha.3");
}

#[test]
fn parse_rejects_bad_repository_charset() {
    assert!(matches!(parse_dependency("org_proto_stable/foo@1.0.0"), Err(Error::Validation(_))));
    assert!(matches!(parse_dependency("Org-proto-x/foo@1.0.0"), Err(Error::Validation(_))));
}

#[test]
fn parse_rejects_missing_proto_infix() {
    assert!(matches!(parse_dependency("orgproto/foo@1.0.0"), Err(Error::Validation(_))));
    assert!(matches!(parse_dependency("org-protos/foo@1.0.0"), Err(Error::Validation(_))));
}

#[test]
fn parse_rejects_bad_package_or_version() {
    assert!(matches!(parse_dependency("org-proto-x/Foo@1.0.0"), Err(Error::Validation(_))));
    assert!(matches!(parse_dependency("org-proto-x/@1.0.0"), Err(Error::Validation(_))));
    assert!(matches!(parse_dependency("org-proto-x/foo@1 0"), Err(Error::Validation(_))));
}

#[test]
fn parse_rejects_missing_separators() {
    assert!(matches!(parse_dependency("org-proto-x foo@1.0.0"), Err(Error::Validation(_))));
    assert!(matches!(parse_dependency("org-proto-x/foo 1.0.0"), Err(Error::Validation(_))));
}

#[test]
fn package_id_rejects_invalid_input() {
    assert!(PackageId::new("foo-bar".to_owned()).is_ok());
    assert!(matches!(PackageId::new("".to_owned()), Err(Error::Validation(_))));
    assert!(matches!(PackageId::new("Foo".to_owned()), Err(Error::Validation(_))));
    assert!(matches!(PackageId::new("foo1".to_owned()), Err(Error::Validation(_))));
}

#[test]
fn add_appends_and_rejects_without_mutation() {
    let mut manifest = commands::init(None, false).expect("init");
    assert!(commands::add(&mut manifest, "org-proto-stable/foo@1.0.0").is_ok());
    assert_eq!(manifest.dependencies.len(), 1);
    assert_eq!(manifest.dependencies[0].repository, "org-proto-stable");

    // An invalid spec leaves the manifest unmodified.
    assert!(matches!(
        commands::add(&mut manifest, "org_proto_stable/foo@1.0.0"),
        Err(Error::Validation(_))
    ));
    assert_eq!(manifest.dependencies.len(), 1);

    // A second entry for the same package is rejected.
    assert!(matches!(
        commands::add(&mut manifest, "other-proto-dev/foo@2.0.0"),
        Err(Error::Validation(_))
    ));
    assert_eq!(manifest.dependencies.len(), 1);
}

#[test]
fn init_scenario_add_then_remove() {
    let mut manifest = commands::init(None, false).expect("init");
    let mut store = PackageStore::new();
    assert!(commands::add(&mut manifest, "org-proto-stable/foo@1.0.0").is_ok());
    assert_eq!(manifest.dependencies.len(), 1);
    assert_eq!(manifest.dependencies[0].repository, "org-proto-stable");
    assert_eq!(manifest.dependencies[0].package.as_str(), "foo");
    assert_eq!(manifest.dependencies[0].version, "1.0.0");
    assert!(matches!(
        commands::add(&mut manifest, "org_proto_stable/foo@1.0.0"),
        Err(Error::Validation(_))
    ));
    assert!(commands::remove(&mut manifest, &mut store, &pkg_id("foo")).is_ok());
    assert!(manifest.dependencies.is_empty());
}

#[test]
fn init_refuses_existing_project() {
    assert!(matches!(commands::init(None, true), Err(Error::AlreadyInitialized)));
}

#[test]
fn init_with_api_declares_version() {
    let manifest = commands::init(Some(pkg_id("my-api")), false).expect("init");
    let api = manifest.api.expect("api section");
    assert_eq!(api.name.as_str(), "my-api");
    assert_eq!(api.version, "0.0.1");
    assert!(api.description.is_none());
}

#[test]
fn remove_absent_dependency_fails_not_found() {
    let mut manifest = commands::init(None, false).expect("init");
    let mut store = PackageStore::new();
    assert!(commands::add(&mut manifest, "org-proto-stable/foo@1.0.0").is_ok());
    assert!(matches!(
        commands::remove(&mut manifest, &mut store, &pkg_id("bar")),
        Err(Error::NotFound(_))
    ));
    assert_eq!(manifest.dependencies.len(), 1);
}

#[test]
fn remove_takes_exactly_one_entry_and_uninstalls() {
    let mut manifest = commands::init(None, false).expect("init");
    let mut store = PackageStore::new();
    assert!(commands::add(&mut manifest, "org-proto-stable/foo@1.0.0").is_ok());
    assert!(commands::add(&mut manifest, "org-proto-stable/bar@2.0.0").is_ok());
    store.install(pkg("foo", "1.0.0", b"foo-bytes"));
    store.install(pkg("bar", "2.0.0", b"bar-bytes"));

    assert!(commands::remove(&mut manifest, &mut store, &pkg_id("foo")).is_ok());
    assert_eq!(manifest.dependencies.len(), 1);
    assert_eq!(manifest.dependencies[0].package.as_str(), "bar");
    assert!(!store.contains(&pkg_id("foo")));
    assert!(store.contains(&pkg_id("bar")));
}

#[test]
fn manifest_document_round_trips() {
    let mut manifest = commands::init(Some(pkg_id("my-api")), false).expect("init");
    assert!(commands::add(&mut manifest, "org-proto-stable/foo@1.0.0").is_ok());
    assert!(commands::add(&mut manifest, "team-proto-dev/bar@0.3.1-rc.1").is_ok());

    let doc = docs::to_doc(&manifest);
    let back = docs::from_doc(&doc).expect("readable document");

    assert_eq!(back.dependencies.len(), manifest.dependencies.len());
    for (a, b) in manifest.dependencies.iter().zip(back.dependencies.iter()) {
        assert_eq!(a.repository, b.repository);
        assert_eq!(a.package.as_str(), b.package.as_str());
        assert_eq!(a.version, b.version);
    }
    let api = back.api.expect("api kept");
    assert_eq!(api.name.as_str(), "my-api");
    assert_eq!(api.version, "0.0.1");
}

#[test]
fn document_with_duplicate_packages_is_rejected() {
    let mut manifest = commands::init(None, false).expect("init");
    assert!(commands::add(&mut manifest, "org-proto-stable/foo@1.0.0").is_ok());
    let mut doc = docs::to_doc(&manifest);
    let mut dup = docs::to_doc(&manifest);
    doc.dependencies.push(dup.dependencies.remove(0));
    assert!(matches!(docs::from_doc(&doc), Err(Error::Parse(_))));
}

#[test]
fn uninstall_of_never_installed_package_is_a_no_op() {
    let mut store = PackageStore::new();
    store.install(pkg("foo", "1.0.0", b"foo-bytes"));
    store.uninstall(&pkg_id("bar"));
    assert!(store.contains(&pkg_id("foo")));
    assert!(!store.contains(&pkg_id("bar")));
}

#[test]
fn reinstall_overwrites_same_name() {
    let mut store = PackageStore::new();
    store.install(pkg("foo", "1.0.0", b"old"));
    store.install(pkg("foo", "1.1.0", b"new"));
    assert_eq!(store.installed_names(), vec!["foo".to_owned()]);
}

#[test]
fn concurrent_installs_of_distinct_packages_commute() {
    let mut one = PackageStore::new();
    one.install(pkg("foo", "1.0.0", b"foo-bytes"));
    one.install(pkg("bar", "2.0.0", b"bar-bytes"));

    let mut two = PackageStore::new();
    two.install(pkg("bar", "2.0.0", b"bar-bytes"));
    two.install(pkg("foo", "1.0.0", b"foo-bytes"));

    for store in [&one, &two] {
        assert!(store.contains(&pkg_id("foo")));
        assert!(store.contains(&pkg_id("bar")));
    }
}

#[test]
fn clear_keeps_failed_deletions_and_reports_them() {
    let mut store = PackageStore::new();
    store.install(pkg("foo", "1.0.0", b"a"));
    store.install(pkg("bar", "2.0.0", b"b"));
    store.install(pkg("baz", "3.0.0", b"c"));

    let failed = vec![false, true, false];
    match store.clear(&failed) {
        Err(Error::Clear(names)) => assert_eq!(names, vec!["bar".to_owned()]),
        other => panic!("expected aggregate clear error, got {:?}", other),
    }
    assert!(!store.contains(&pkg_id("foo")));
    assert!(store.contains(&pkg_id("bar")));
    assert!(!store.contains(&pkg_id("baz")));
    assert_eq!(store.installed_names(), vec!["bar".to_owned()]);
}

#[test]
fn clear_of_everything_succeeds() {
    let mut store = PackageStore::new();
    store.install(pkg("foo", "1.0.0", b"a"));
    store.install(pkg("bar", "2.0.0", b"b"));
    let failed = vec![false, false];
    assert!(store.clear(&failed).is_ok());
    assert!(store.installed_names().is_empty());
}

#[test]
fn artifact_uri_follows_the_address_convention() {
    let uri = artifact_uri("https://example.com/artifactory", "org-proto-stable",
        &pkg_id("foo"), "1.0.0");
    assert_eq!(uri, "https://example.com/artifactory/org-proto-stable/foo/foo-1.0.0.tgz");
}

#[test]
fn download_request_carries_credentials() {
    let (config, secrets) = logged_in("https://example.com/artifactory", "user", "token");
    let dep = parse_dependency("org-proto-stable/foo@1.0.0").expect("valid spec");
    let artifactory = Artifactory::from(config.artifactory.expect("connection"));
    let req = artifactory.download_request(&secrets, &dep).expect("request");
    assert!(matches!(req.method, Method::Get));
    assert_eq!(req.uri, "https://example.com/artifactory/org-proto-stable/foo/foo-1.0.0.tgz");
    assert_eq!(req.username, "user");
    assert_eq!(req.secret, "token");
    assert!(req.body.is_empty());
}

#[test]
fn download_non_success_status_yields_fetch_failed() {
    let dep = parse_dependency("org-proto-stable/foo@1.0.0").expect("valid spec");
    match Artifactory::download_complete(&dep, 404, b"ignored".to_vec()) {
        Err(Error::FetchFailed(spec)) => assert_eq!(spec, "org-proto-stable/foo@1.0.0"),
        _ => panic!("expected fetch failure"),
    }
    let package = Artifactory::download_complete(&dep, 200, b"bytes".to_vec()).expect("ok");
    assert_eq!(package.name.as_str(), "foo");
    assert_eq!(package.version, "1.0.0");
    assert_eq!(package.tgz, b"bytes".to_vec());
}

#[test]
fn failed_download_batch_installs_nothing() {
    let mut manifest = commands::init(None, false).expect("init");
    assert!(commands::add(&mut manifest, "org-proto-stable/foo@1.0.0").is_ok());
    assert!(commands::add(&mut manifest, "org-proto-stable/bar@2.0.0").is_ok());
    let responses = vec![(200u16, b"foo-bytes".to_vec()), (503u16, Vec::new())];
    match commands::collect_packages(&manifest, responses) {
        Err(Error::FetchFailed(spec)) => assert_eq!(spec, "org-proto-stable/bar@2.0.0"),
        _ => panic!("expected fetch failure"),
    }
    // Nothing reached the store: installs only begin after every
    // download of the batch has succeeded.
    let store = PackageStore::new();
    assert!(!store.contains(&pkg_id("foo")));
}

#[test]
fn successful_batch_installs_every_package() {
    let mut manifest = commands::init(None, false).expect("init");
    assert!(commands::add(&mut manifest, "org-proto-stable/foo@1.0.0").is_ok());
    assert!(commands::add(&mut manifest, "org-proto-stable/bar@2.0.0").is_ok());
    let responses = vec![(200u16, b"foo-bytes".to_vec()), (201u16, b"bar-bytes".to_vec())];
    let packages = commands::collect_packages(&manifest, responses).expect("all succeed");
    let mut store = PackageStore::new();
    commands::install_all(&mut store, packages);
    assert!(store.contains(&pkg_id("foo")));
    assert!(store.contains(&pkg_id("bar")));
}

#[test]
fn install_requests_cover_every_dependency() {
    let (config, secrets) = logged_in("https://example.com/artifactory", "user", "token");
    let mut manifest = commands::init(None, false).expect("init");
    assert!(commands::add(&mut manifest, "org-proto-stable/foo@1.0.0").is_ok());
    assert!(commands::add(&mut manifest, "team-proto-dev/bar@2.0.0").is_ok());
    let reqs = commands::install(&config, &secrets, &manifest).expect("requests");
    assert_eq!(reqs.len(), 2);
    assert_eq!(reqs[0].uri,
        "https://example.com/artifactory/org-proto-stable/foo/foo-1.0.0.tgz");
    assert_eq!(reqs[1].uri, "https://example.com/artifactory/team-proto-dev/bar/bar-2.0.0.tgz");
}

#[test]
fn install_without_connection_fails_auth_unavailable() {
    let config = Config { artifactory: None };
    let secrets = SecretStore::new();
    let mut manifest = commands::init(None, false).expect("init");
    assert!(commands::add(&mut manifest, "org-proto-stable/foo@1.0.0").is_ok());
    assert!(matches!(
        commands::install(&config, &secrets, &manifest),
        Err(Error::AuthUnavailable)
    ));
}

#[test]
fn install_without_secret_fails_auth_unavailable() {
    let config = Config {
        artifactory: Some(ArtifactoryConfig {
            url: "https://example.com/artifactory".to_owned(),
            username: "user".to_owned(),
        }),
    };
    let secrets = SecretStore::new();
    let mut manifest = commands::init(None, false).expect("init");
    assert!(commands::add(&mut manifest, "org-proto-stable/foo@1.0.0").is_ok());
    assert!(matches!(
        commands::install(&config, &secrets, &manifest),
        Err(Error::AuthUnavailable)
    ));
}

#[test]
fn release_requires_an_api_section() {
    let manifest = commands::init(None, false).expect("init");
    assert!(matches!(
        commands::release(&manifest, b"archive".to_vec()),
        Err(Error::NotAnApi)
    ));

    let manifest = commands::init(Some(pkg_id("my-api")), false).expect("init");
    let package = commands::release(&manifest, b"archive".to_vec()).expect("release");
    assert_eq!(package.name.as_str(), "my-api");
    assert_eq!(package.version, "0.0.1");
    assert_eq!(package.tgz, b"archive".to_vec());
}

#[test]
fn publish_request_carries_archive_body() {
    let (config, secrets) = logged_in("https://example.com/artifactory", "user", "token");
    let package = pkg("my-api", "0.0.1", b"archive");
    let req = commands::publish(&config, &secrets, package, "org-proto-stable")
        .expect("request");
    assert!(matches!(req.method, Method::Put));
    assert_eq!(req.uri,
        "https://example.com/artifactory/org-proto-stable/my-api/my-api-0.0.1.tgz");
    assert_eq!(req.body, b"archive".to_vec());
}

#[test]
fn publish_non_success_status_yields_publish_failed() {
    match Artifactory::publish_complete(&pkg_id("my-api"), 500) {
        Err(Error::PublishFailed(name)) => assert_eq!(name, "my-api"),
        other => panic!("expected publish failure, got {:?}", other),
    }
    assert!(Artifactory::publish_complete(&pkg_id("my-api"), 201).is_ok());
}

#[test]
fn login_rejects_an_invalid_url() {
    let mut config = Config { artifactory: None };
    let mut secrets = SecretStore::new();
    let r = commands::login(&mut config, &mut secrets, "::not a url::".to_owned(),
        "user".to_owned(), "token".to_owned());
    assert!(matches!(r, Err(Error::Validation(_))));
    assert!(config.artifactory.is_none());
}

#[test]
fn login_then_logout_leaves_no_secret_and_no_connection() {
    let (mut config, mut secrets) = logged_in("https://example.com/artifactory", "user", "token");
    assert!(config.artifactory.is_some());
    assert_eq!(
        secrets.resolve_secret(&"https://example.com/artifactory".to_owned(),
            &"user".to_owned()).expect("stored"),
        "token"
    );

    commands::logout(&mut config, &mut secrets);
    assert!(config.artifactory.is_none());
    assert!(matches!(
        secrets.resolve_secret(&"https://example.com/artifactory".to_owned(),
            &"user".to_owned()),
        Err(Error::LoginRequired)
    ));

    // A publish without an intervening login fails for want of
    // authentication.
    let package = pkg("my-api", "0.0.1", b"archive");
    assert!(matches!(
        commands::publish(&config, &secrets, package, "org-proto-stable"),
        Err(Error::AuthUnavailable)
    ));
}

#[test]
fn logout_without_connection_is_a_no_op() {
    let mut config = Config { artifactory: None };
    let mut secrets = SecretStore::new();
    secrets.set("https://example.com".to_owned(), "user".to_owned(), "token".to_owned());
    commands::logout(&mut config, &mut secrets);
    assert!(config.artifactory.is_none());
    assert!(secrets.contains(&"https://example.com".to_owned(), &"user".to_owned()));
}

#[test]
fn secret_store_overwrites_per_key() {
    let mut secrets = SecretStore::new();
    secrets.set("https://a".to_owned(), "user".to_owned(), "one".to_owned());
    secrets.set("https://a".to_owned(), "user".to_owned(), "two".to_owned());
    secrets.set("https://a".to_owned(), "other".to_owned(), "three".to_owned());
    assert_eq!(secrets.resolve_secret(&"https://a".to_owned(), &"user".to_owned()).unwrap(),
        "two");
    assert_eq!(secrets.resolve_secret(&"https://a".to_owned(), &"other".to_owned()).unwrap(),
        "three");
    secrets.delete(&"https://a".to_owned(), &"user".to_owned());
    assert!(secrets.resolve_secret(&"https://a".to_owned(), &"user".to_owned()).is_err());
    assert!(secrets.resolve_secret(&"https://a".to_owned(), &"other".to_owned()).is_ok());
}
