//! The command layer: one function per command, each a pure decision
//! over explicit state. The outer layer loads and persists documents,
//! performs the transfers these functions prescribe, and hands their
//! results back.

use vstd::prelude::*;
use crate::Error;
use crate::credentials::SecretStore;
use crate::id::PackageId;
use crate::manifest::{ApiManifest, Manifest, format_spec, parse_spec, parse_dependency};
use crate::registry::{
    Artifactory, ArtifactoryConfig, ArtifactRequest, Config, artifact_uri_spec, is_parseable_url,
};
use crate::store::{Package, PackageData, PackageStore, kept_upto, names_of};

verus! {

/// Initializes a fresh project: an empty dependency list and, when an
/// api identifier is given, an api declaration at version `0.0.1` with
/// no description. Refused when a project already exists here.
pub fn init(api: Option<PackageId>, exists: bool) -> (r: Result<Manifest, Error>)
    requires
        match api {
            Some(p) => p.wf(),
            None => true,
        },
    ensures
        match r {
            Ok(m) => !exists && m.wf() && m.dependencies@.len() == 0 && (match (api, m.api) {
                (Some(p), Some(a)) => a.name@ == p@ && a.version@ == "0.0.1"@
                    && a.description is None,
                (None, None) => true,
                _ => false,
            }),
            Err(e) => exists && e is AlreadyInitialized,
        },
{
    if exists {
        return Err(Error::AlreadyInitialized);
    }
    let api_section = match api {
        Some(name) => Some(ApiManifest {
            name,
            version: "0.0.1".to_owned(),
            description: None,
        }),
        None => None,
    };
    Ok(Manifest { api: api_section, dependencies: Vec::new() })
}

/// Adds a dependency given as a spec string: the spec is fully
/// validated, then appended; on any failure the manifest is left
/// unmodified.
pub fn add(manifest: &mut Manifest, dependency: &str) -> (r: Result<(), Error>)
    requires
        old(manifest).wf(),
    ensures
        final(manifest).wf(),
        final(manifest).api == old(manifest).api,
        match r {
            Ok(()) => parse_spec(dependency@) is Some && ({
                let (repo, pkg, ver) = parse_spec(dependency@)->Some_0;
                &&& forall|i: int| 0 <= i < old(manifest).dependencies@.len()
                    ==> (#[trigger] old(manifest).dependencies@[i]).package@ != pkg
                &&& final(manifest).dependencies@.len() == old(manifest).dependencies@.len() + 1
                &&& forall|i: int| 0 <= i < old(manifest).dependencies@.len()
                    ==> final(manifest).dependencies@[i] == old(manifest).dependencies@[i]
                &&& final(manifest).dependencies@.last().repository@ == repo
                &&& final(manifest).dependencies@.last().package@ == pkg
                &&& final(manifest).dependencies@.last().version@ == ver
            }),
            Err(e) => *final(manifest) == *old(manifest) && e is Validation
                && (parse_spec(dependency@) is None || exists|i: int|
                    0 <= i < old(manifest).dependencies@.len()
                    && (#[trigger] old(manifest).dependencies@[i]).package@
                        == parse_spec(dependency@)->Some_0.1),
        },
{
    let dep = match parse_dependency(dependency) {
        Ok(d) => d,
        Err(e) => {
            return Err(e);
        },
    };
    manifest.add_dependency(dep)
}

/// Removes the dependency on a package: the single matching entry
/// leaves the manifest and the package's store location is uninstalled;
/// when none matches, both are left untouched and `NotFound` is
/// returned.
pub fn remove(manifest: &mut Manifest, store: &mut PackageStore, package: &PackageId) -> (r:
    Result<(), Error>)
    requires
        old(manifest).wf(),
        old(store).wf(),
    ensures
        final(manifest).wf(),
        final(store).wf(),
        final(manifest).api == old(manifest).api,
        match r {
            Ok(()) => (exists|i: int| 0 <= i < old(manifest).dependencies@.len()
                && (#[trigger] old(manifest).dependencies@[i]).package@ == package@
                && final(manifest).dependencies@ == old(manifest).dependencies@.remove(i))
                && final(store)@ == old(store)@.remove(package@),
            Err(e) => (forall|i: int| 0 <= i < old(manifest).dependencies@.len()
                ==> (#[trigger] old(manifest).dependencies@[i]).package@ != package@)
                && *final(manifest) == *old(manifest) && *final(store) == *old(store)
                && e is NotFound,
        },
{
    let removed = match manifest.remove_dependency(package) {
        Ok(d) => d,
        Err(e) => {
            return Err(e);
        },
    };
    store.uninstall(&removed.package);
    Ok(())
}

/// The map after installing a batch of packages, in order.
pub open spec fn install_fold(m: Map<Seq<char>, PackageData>, ps: Seq<PackageData>, k: int) -> Map<
    Seq<char>,
    PackageData,
>
    decreases k,
{
    if k <= 0 {
        m
    } else {
        install_fold(m, ps, k - 1).insert(ps[k - 1].name, ps[k - 1])
    }
}

/// The views of a batch of packages.
pub open spec fn pkg_views(s: Seq<Package>) -> Seq<PackageData> {
    s.map_values(|p: Package| p@)
}

/// The download phase of the install command: one authenticated request
/// per declared dependency, in manifest order. Fails with
/// `AuthUnavailable` when no connection is configured or no secret is
/// stored, with `Validation` on the first artifact address that is not
/// an acceptable URL; a failed batch prescribes no transfer.
#[verifier::rlimit(50)]
pub fn install(config: &Config, secrets: &SecretStore, manifest: &Manifest) -> (r: Result<
    Vec<ArtifactRequest>,
    Error,
>)
    requires
        secrets.wf(),
    ensures
        ({
            let deps = manifest.dependencies@;
            match r {
                Ok(reqs) => config.artifactory is Some && ({
                    let cfg = config.artifactory->Some_0;
                    &&& reqs@.len() == deps.len()
                    &&& deps.len() > 0 ==> secrets@.contains_key((cfg.url@, cfg.username@))
                    &&& forall|i: int| 0 <= i < deps.len()
                        ==> (#[trigger] reqs@[i]).method is Get
                            && reqs@[i].uri@ == artifact_uri_spec(cfg.url@,
                                deps[i].repository@, deps[i].package@, deps[i].version@)
                            && reqs@[i].username@ == cfg.username@
                            && reqs@[i].secret@ == secrets@[(cfg.url@, cfg.username@)]
                            && reqs@[i].body@ == Seq::<u8>::empty()
                }),
                Err(e) => match e {
                    Error::AuthUnavailable => config.artifactory is None || ({
                        let cfg = config.artifactory->Some_0;
                        deps.len() > 0 && !secrets@.contains_key((cfg.url@, cfg.username@))
                    }),
                    Error::Validation(u) => config.artifactory is Some && ({
                        let cfg = config.artifactory->Some_0;
                        exists|i: int| 0 <= i < deps.len()
                            && !is_parseable_url(#[trigger] artifact_uri_spec(cfg.url@,
                                deps[i].repository@, deps[i].package@, deps[i].version@))
                            && u@ == artifact_uri_spec(cfg.url@, deps[i].repository@,
                                deps[i].package@, deps[i].version@)
                            && (forall|j: int| 0 <= j < i
                                ==> is_parseable_url(#[trigger] artifact_uri_spec(cfg.url@,
                                    deps[j].repository@, deps[j].package@, deps[j].version@)))
                    }),
                    _ => false,
                },
            }
        }),
{
    let cfg = match &config.artifactory {
        Some(c) => c,
        None => {
            return Err(Error::AuthUnavailable);
        },
    };
    let artifactory = Artifactory::from(cfg.clone());
    let n = manifest.dependencies.len();
    let mut reqs: Vec<ArtifactRequest> = Vec::new();
    let mut k: usize = 0;
    while k < n
        invariant
            secrets.wf(),
            n == manifest.dependencies@.len(),
            k <= n,
            artifactory.config.url@ == cfg.url@,
            artifactory.config.username@ == cfg.username@,
            config.artifactory == Some(*cfg),
            reqs@.len() == k,
            k > 0 ==> secrets@.contains_key((cfg.url@, cfg.username@)),
            forall|i: int| 0 <= i < k ==> is_parseable_url(#[trigger] artifact_uri_spec(
                cfg.url@, manifest.dependencies@[i].repository@,
                manifest.dependencies@[i].package@, manifest.dependencies@[i].version@)),
            forall|i: int| 0 <= i < k ==> (#[trigger] reqs@[i]).method is Get
                && reqs@[i].uri@ == artifact_uri_spec(cfg.url@,
                    manifest.dependencies@[i].repository@, manifest.dependencies@[i].package@,
                    manifest.dependencies@[i].version@)
                && reqs@[i].username@ == cfg.username@
                && reqs@[i].secret@ == secrets@[(cfg.url@, cfg.username@)]
                && reqs@[i].body@ == Seq::<u8>::empty(),
        decreases n - k,
    {
        let dep = &manifest.dependencies[k];
        match artifactory.download_request(secrets, dep) {
            Ok(rq) => {
                reqs.push(rq);
            },
            Err(e) => {
                proof {
                    assert(config.artifactory->Some_0 == *cfg);
                    assert(artifact_uri_spec(artifactory.config.url@, dep.repository@,
                        dep.package@, dep.version@) == artifact_uri_spec(cfg.url@,
                        manifest.dependencies@[k as int].repository@,
                        manifest.dependencies@[k as int].package@,
                        manifest.dependencies@[k as int].version@));
                    assert((artifactory.config.url@, artifactory.config.username@)
                        == (cfg.url@, cfg.username@));
                    let deps = manifest.dependencies@;
                    match &e {
                        Error::AuthUnavailable => {
                            assert(deps.len() > 0
                                && !secrets@.contains_key((cfg.url@, cfg.username@)));
                        },
                        Error::Validation(u) => {
                            assert(!is_parseable_url(artifact_uri_spec(cfg.url@,
                                deps[k as int].repository@, deps[k as int].package@,
                                deps[k as int].version@)));
                            assert(u@ == artifact_uri_spec(cfg.url@, deps[k as int].repository@,
                                deps[k as int].package@, deps[k as int].version@));
                            assert(exists|i: int| 0 <= i < deps.len()
                                && !is_parseable_url(#[trigger] artifact_uri_spec(cfg.url@,
                                    deps[i].repository@, deps[i].package@, deps[i].version@))
                                && u@ == artifact_uri_spec(cfg.url@, deps[i].repository@,
                                    deps[i].package@, deps[i].version@)
                                && (forall|j: int| 0 <= j < i
                                    ==> is_parseable_url(#[trigger] artifact_uri_spec(cfg.url@,
                                        deps[j].repository@, deps[j].package@,
                                        deps[j].version@))));
                        },
                        _ => {
                            assert(false);
                        },
                    }
                }
                return Err(e);
            },
        }
        k += 1;
    }
    Ok(reqs)
}

/// Whether position `i` holds the first non-success response.
pub open spec fn first_failure_at(responses: Seq<(u16, Vec<u8>)>, i: int) -> bool {
    &&& 0 <= i < responses.len()
    &&& !(200 <= responses[i].0 < 300)
    &&& forall|j: int| 0 <= j < i ==> 200 <= (#[trigger] responses[j]).0 < 300
}

/// The turn from downloads to packages: every response must be a
/// success before any package is produced; the first failure yields
/// `FetchFailed` for its dependency, and nothing is installed from a
/// partial batch.
pub fn collect_packages(manifest: &Manifest, responses: Vec<(u16, Vec<u8>)>) -> (r: Result<
    Vec<Package>,
    Error,
>)
    requires
        responses@.len() == manifest.dependencies@.len(),
    ensures
        ({
            let deps = manifest.dependencies@;
            match r {
                Ok(ps) => ps@.len() == deps.len()
                    && (forall|i: int| 0 <= i < deps.len()
                        ==> 200 <= (#[trigger] responses@[i]).0 < 300)
                    && forall|i: int| 0 <= i < deps.len()
                        ==> (#[trigger] ps@[i])@.name == deps[i].package@
                            && ps@[i]@.version == deps[i].version@
                            && ps@[i]@.tgz == responses@[i].1@,
                Err(e) => match e {
                    Error::FetchFailed(d) => exists|i: int| #[trigger] first_failure_at(
                        responses@, i) && d@ == format_spec(deps[i].repository@,
                        deps[i].package@, deps[i].version@),
                    _ => false,
                },
            }
        }),
{
    let ghost orig = responses@;
    let mut queue = responses;
    let n = manifest.dependencies.len();
    let mut out: Vec<Package> = Vec::new();
    let mut k: usize = 0;
    while k < n
        invariant
            n == manifest.dependencies@.len(),
            orig.len() == n,
            orig == responses@,
            k <= n,
            queue@ == orig.subrange(k as int, n as int),
            out@.len() == k,
            forall|i: int| 0 <= i < k ==> 200 <= (#[trigger] orig[i]).0 < 300,
            forall|i: int| 0 <= i < k ==> (#[trigger] out@[i])@.name
                == manifest.dependencies@[i].package@
                && out@[i]@.version == manifest.dependencies@[i].version@
                && out@[i]@.tgz == orig[i].1@,
        decreases n - k,
    {
        let (status, body) = queue.remove(0);
        proof {
            assert(orig[k as int] == (status, body));
            assert(queue@ =~= orig.subrange(k as int + 1, n as int));
        }
        match Artifactory::download_complete(&manifest.dependencies[k], status, body) {
            Ok(p) => {
                out.push(p);
            },
            Err(e) => {
                proof {
                    assert(!(200 <= responses@[k as int].0 < 300));
                    assert(first_failure_at(responses@, k as int));
                }
                return Err(e);
            },
        }
        k += 1;
    }
    Ok(out)
}

/// The install phase: each downloaded package takes its per-package
/// location, later entries overwriting earlier ones of the same name.
pub fn install_all(store: &mut PackageStore, packages: Vec<Package>)
    requires
        old(store).wf(),
    ensures
        final(store).wf(),
        final(store)@ == install_fold(old(store)@, pkg_views(packages@), packages@.len() as int),
{
    let ghost orig = packages@;
    let mut packages = packages;
    let mut k: usize = 0;
    let n = packages.len();
    while k < n
        invariant
            n == orig.len(),
            k <= n,
            packages@ == orig.subrange(k as int, n as int),
            store.wf(),
            store@ == install_fold(old(store)@, pkg_views(orig), k as int),
        decreases n - k,
    {
        let p = packages.remove(0);
        proof {
            assert(p == orig[k as int]);
            assert(packages@ =~= orig.subrange(k as int + 1, n as int));
            assert(pkg_views(orig)[k as int] == p@);
        }
        store.install(p);
        k += 1;
    }
}

/// The uninstall command: a best-effort bulk delete of every installed
/// package; see `PackageStore::clear` for the exact guarantees.
pub fn uninstall(store: &mut PackageStore, failed: &Vec<bool>) -> (r: Result<(), Error>)
    requires
        old(store).wf(),
        failed@.len() == old(store).entry_count(),
    ensures
        final(store).wf(),
        final(store).name_seq() == names_of(kept_upto(old(store).pkg_seq(), failed@,
            failed@.len() as int)),
        match r {
            Ok(()) => (forall|i: int| 0 <= i < failed@.len() ==> !failed@[i])
                && final(store)@ == Map::<Seq<char>, PackageData>::empty(),
            Err(e) => match e {
                Error::Clear(ns) => ns.deep_view() == names_of(kept_upto(old(store).pkg_seq(),
                    failed@, failed@.len() as int))
                    && exists|i: int| 0 <= i < failed@.len() && failed@[i],
                _ => false,
            },
        },
{
    store.clear(failed)
}

/// Packages the project's own sources, validated against the api
/// declaration, into a publishable unit; a project without an api
/// section has nothing to release.
pub fn release(manifest: &Manifest, tgz: Vec<u8>) -> (r: Result<Package, Error>)
    requires
        manifest.wf(),
    ensures
        match r {
            Ok(p) => manifest.api is Some && p@.name == manifest.api->Some_0.name@
                && p@.version == manifest.api->Some_0.version@ && p@.tgz == tgz@,
            Err(e) => manifest.api is None && e is NotAnApi,
        },
{
    match &manifest.api {
        Some(a) => Ok(Package { name: a.name.clone(), version: a.version.clone(), tgz }),
        None => Err(Error::NotAnApi),
    }
}

/// The publish command: the upload to perform for a released package,
/// or `AuthUnavailable` when no connection is configured.
pub fn publish(config: &Config, secrets: &SecretStore, package: Package, repository: &str) -> (r:
    Result<ArtifactRequest, Error>)
    requires
        secrets.wf(),
    ensures
        ({
            let uri = artifact_uri_spec(config.artifactory->Some_0.url@, repository@,
                package@.name, package@.version);
            let key = (config.artifactory->Some_0.url@, config.artifactory->Some_0.username@);
            match r {
                Ok(req) => config.artifactory is Some && is_parseable_url(uri)
                    && secrets@.contains_key(key) && req.method is Put && req.uri@ == uri
                    && req.username@ == config.artifactory->Some_0.username@
                    && req.secret@ == secrets@[key] && req.body@ == package@.tgz,
                Err(e) => match e {
                    Error::AuthUnavailable => config.artifactory is None
                        || (is_parseable_url(uri) && !secrets@.contains_key(key)),
                    Error::Validation(u) => config.artifactory is Some && !is_parseable_url(uri)
                        && u@ == uri,
                    _ => false,
                },
            }
        }),
{
    match &config.artifactory {
        Some(c) => Artifactory::from(c.clone()).publish_request(secrets, package, repository),
        None => Err(Error::AuthUnavailable),
    }
}

/// The login command: records the connection and stores its secret.
pub fn login(config: &mut Config, secrets: &mut SecretStore, url: String, username: String,
    password: String) -> (r: Result<(), Error>)
    requires
        old(secrets).wf(),
    ensures
        final(secrets).wf(),
        match r {
            Ok(()) => is_parseable_url(url@) && (match final(config).artifactory {
                Some(c) => c.url@ == url@ && c.username@ == username@,
                None => false,
            }) && final(secrets)@ == old(secrets)@.insert((url@, username@), password@),
            Err(e) => !is_parseable_url(url@) && e is Validation
                && *final(config) == *old(config) && final(secrets)@ == old(secrets)@,
        },
{
    match ArtifactoryConfig::new(url, username, password, secrets) {
        Ok(cfg) => {
            config.artifactory = Some(cfg);
            Ok(())
        },
        Err(e) => Err(e),
    }
}

/// The logout command: deletes the connection's secret (a no-op when
/// none is stored) and clears the connection record; afterwards no
/// connection is configured.
pub fn logout(config: &mut Config, secrets: &mut SecretStore)
    requires
        old(secrets).wf(),
    ensures
        final(secrets).wf(),
        final(config).artifactory is None,
        match old(config).artifactory {
            Some(c) => final(secrets)@ == old(secrets)@.remove((c.url@, c.username@)),
            None => final(secrets)@ == old(secrets)@,
        },
{
    match &config.artifactory {
        Some(c) => {
            c.clear(secrets);
        },
        None => {},
    }
    config.artifactory = None;
}

/// Logging in and immediately out leaves no secret in the secret store
/// under the connection's key; by the contract of `publish`, a publish
/// attempted after logout, without an intervening login, fails with
/// `AuthUnavailable`.
pub proof fn lemma_login_logout_leaves_no_secret(m: Map<(Seq<char>, Seq<char>), Seq<char>>,
    endpoint: Seq<char>, username: Seq<char>, secret: Seq<char>)
    ensures
        !m.insert((endpoint, username), secret).remove((endpoint, username)).contains_key(
            (endpoint, username)),
{
}

} // verus!
