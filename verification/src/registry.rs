//! The registry protocol: deterministic artifact addresses, the
//! authenticated requests the outer transport performs, and the reading
//! of transport responses. A non-success response never produces a
//! package.

use vstd::prelude::*;
use vstd::string::StringExecFns;
use crate::Error;
use crate::credentials::SecretStore;
use crate::id::PackageId;
use crate::manifest::{Dependency, format_spec, format_dependency};
use crate::store::Package;

verus! {

/// Whether `url::Url::parse` accepts the string: a function of the
/// string alone.
pub uninterp spec fn is_parseable_url(s: Seq<char>) -> bool;

/// Relies on `url::Url::parse` of the url crate: whether the string is
/// an acceptable absolute URL depends on the string alone.
#[verifier::external_body]
fn url_ok(s: &str) -> (r: bool)
    ensures
        r == is_parseable_url(s@),
{
    url::Url::parse(s).is_ok()
}

/// The deterministic artifact address of a versioned package:
/// `{endpoint}/{repository}/{package}/{package}-{version}.tgz`.
pub open spec fn artifact_uri_spec(endpoint: Seq<char>, repository: Seq<char>, pkg: Seq<char>,
    version: Seq<char>) -> Seq<char> {
    endpoint + "/"@ + repository + "/"@ + pkg + "/"@ + pkg + "-"@ + version + ".tgz"@
}

/// Builds the artifact address of a versioned package.
pub fn artifact_uri(endpoint: &str, repository: &str, package: &PackageId, version: &str) -> (r:
    String)
    ensures
        r@ == artifact_uri_spec(endpoint@, repository@, package@, version@),
{
    let mut out = String::new();
    out.append(endpoint);
    out.append("/");
    out.append(repository);
    out.append("/");
    out.append(package.as_str());
    out.append("/");
    out.append(package.as_str());
    out.append("-");
    out.append(version);
    out.append(".tgz");
    proof {
        assert(out@ =~= artifact_uri_spec(endpoint@, repository@, package@, version@));
    }
    out
}

/// The transport verb of an artifact request.
pub enum Method {
    Get,
    Put,
}

/// One authenticated transfer for the outer transport to perform: basic
/// authentication with the username and the secret resolved at call
/// time, a body only for uploads.
pub struct ArtifactRequest {
    pub method: Method,
    pub uri: String,
    pub username: String,
    pub secret: String,
    pub body: Vec<u8>,
}

/// Registry connection settings: endpoint and username. The secret is
/// never stored here; it lives in the secret store under
/// (endpoint, username).
pub struct ArtifactoryConfig {
    pub url: String,
    pub username: String,
}

impl Clone for ArtifactoryConfig {
    fn clone(&self) -> (r: Self)
        ensures
            r.url@ == self.url@,
            r.username@ == self.username@,
    {
        ArtifactoryConfig { url: self.url.clone(), username: self.username.clone() }
    }
}

impl ArtifactoryConfig {
    /// Creates a connection record and stores its secret in the secret
    /// store; an endpoint that is not an acceptable URL is rejected and
    /// nothing is stored.
    pub fn new(url: String, username: String, password: String, secrets: &mut SecretStore) -> (r:
        Result<ArtifactoryConfig, Error>)
        requires
            old(secrets).wf(),
        ensures
            final(secrets).wf(),
            match r {
                Ok(cfg) => is_parseable_url(url@) && cfg.url@ == url@
                    && cfg.username@ == username@
                    && final(secrets)@ == old(secrets)@.insert((url@, username@), password@),
                Err(e) => !is_parseable_url(url@) && e is Validation
                    && final(secrets)@ == old(secrets)@,
            },
    {
        if !url_ok(url.as_str()) {
            return Err(Error::Validation(url));
        }
        let cfg = ArtifactoryConfig { url: url.clone(), username: username.clone() };
        secrets.set(url, username, password);
        Ok(cfg)
    }

    /// Clears the connection's secret from the secret store.
    pub fn clear(&self, secrets: &mut SecretStore)
        requires
            old(secrets).wf(),
        ensures
            final(secrets).wf(),
            final(secrets)@ == old(secrets)@.remove((self.url@, self.username@)),
    {
        secrets.delete(&self.url, &self.username);
    }
}

/// Process-wide configuration: at most one registry connection.
pub struct Config {
    pub artifactory: Option<ArtifactoryConfig>,
}

/// The registry client for an artifactory-style endpoint.
pub struct Artifactory {
    pub config: ArtifactoryConfig,
}

impl Artifactory {
    /// Wraps a connection record.
    pub fn from(config: ArtifactoryConfig) -> (r: Artifactory)
        ensures
            r.config == config,
    {
        Artifactory { config }
    }

    /// The download to perform for a dependency: its deterministic
    /// artifact address, authenticated with the secret resolved at call
    /// time. Fails with `Validation` when the address is not an
    /// acceptable URL, with `AuthUnavailable` when no secret is stored.
    pub fn download_request(&self, secrets: &SecretStore, dependency: &Dependency) -> (r: Result<
        ArtifactRequest,
        Error,
    >)
        requires
            secrets.wf(),
        ensures
            ({
                let uri = artifact_uri_spec(self.config.url@, dependency.repository@,
                    dependency.package@, dependency.version@);
                let key = (self.config.url@, self.config.username@);
                match r {
                    Ok(req) => is_parseable_url(uri) && secrets@.contains_key(key)
                        && req.method is Get && req.uri@ == uri
                        && req.username@ == self.config.username@
                        && req.secret@ == secrets@[key]
                        && req.body@ == Seq::<u8>::empty(),
                    Err(e) => match e {
                        Error::Validation(u) => !is_parseable_url(uri) && u@ == uri,
                        Error::AuthUnavailable => is_parseable_url(uri)
                            && !secrets@.contains_key(key),
                        _ => false,
                    },
                }
            }),
    {
        let uri = artifact_uri(self.config.url.as_str(), dependency.repository.as_str(),
            &dependency.package, dependency.version.as_str());
        if !url_ok(uri.as_str()) {
            return Err(Error::Validation(uri));
        }
        match secrets.resolve_secret(&self.config.url, &self.config.username) {
            Ok(secret) => Ok(ArtifactRequest {
                method: Method::Get,
                uri,
                username: self.config.username.clone(),
                secret,
                body: Vec::new(),
            }),
            Err(_) => Err(Error::AuthUnavailable),
        }
    }

    /// Reads a download response: a success status yields the package,
    /// body bytes taken as-is as its archive; any other status yields
    /// `FetchFailed` carrying the dependency's spec string.
    pub fn download_complete(dependency: &Dependency, status: u16, body: Vec<u8>) -> (r: Result<
        Package,
        Error,
    >)
        ensures
            match r {
                Ok(p) => 200 <= status < 300 && p@.name == dependency.package@
                    && p@.version == dependency.version@ && p@.tgz == body@,
                Err(e) => !(200 <= status < 300) && match e {
                    Error::FetchFailed(d) => d@ == format_spec(dependency.repository@,
                        dependency.package@, dependency.version@),
                    _ => false,
                },
            },
    {
        if 200 <= status && status < 300 {
            Ok(Package {
                name: dependency.package.clone(),
                version: dependency.version.clone(),
                tgz: body,
            })
        } else {
            Err(Error::FetchFailed(format_dependency(dependency)))
        }
    }

    /// The upload to perform for a package release: the same address
    /// convention, the archive bytes as body.
    pub fn publish_request(&self, secrets: &SecretStore, package: Package, repository: &str) -> (r:
        Result<ArtifactRequest, Error>)
        requires
            secrets.wf(),
        ensures
            ({
                let uri = artifact_uri_spec(self.config.url@, repository@, package@.name,
                    package@.version);
                let key = (self.config.url@, self.config.username@);
                match r {
                    Ok(req) => is_parseable_url(uri) && secrets@.contains_key(key)
                        && req.method is Put && req.uri@ == uri
                        && req.username@ == self.config.username@
                        && req.secret@ == secrets@[key]
                        && req.body@ == package@.tgz,
                    Err(e) => match e {
                        Error::Validation(u) => !is_parseable_url(uri) && u@ == uri,
                        Error::AuthUnavailable => is_parseable_url(uri)
                            && !secrets@.contains_key(key),
                        _ => false,
                    },
                }
            }),
    {
        let uri = artifact_uri(self.config.url.as_str(), repository, &package.name,
            package.version.as_str());
        if !url_ok(uri.as_str()) {
            return Err(Error::Validation(uri));
        }
        match secrets.resolve_secret(&self.config.url, &self.config.username) {
            Ok(secret) => Ok(ArtifactRequest {
                method: Method::Put,
                uri,
                username: self.config.username.clone(),
                secret,
                body: package.tgz,
            }),
            Err(_) => Err(Error::AuthUnavailable),
        }
    }

    /// Reads an upload response: any non-success status yields
    /// `PublishFailed` carrying the package name.
    pub fn publish_complete(name: &PackageId, status: u16) -> (r: Result<(), Error>)
        ensures
            match r {
                Ok(()) => 200 <= status < 300,
                Err(e) => !(200 <= status < 300) && match e {
                    Error::PublishFailed(n) => n@ == name@,
                    _ => false,
                },
            },
    {
        if 200 <= status && status < 300 {
            Ok(())
        } else {
            Err(Error::PublishFailed(name.as_str().to_owned()))
        }
    }
}

} // verus!
