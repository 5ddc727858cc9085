//! Verified core of a package manager for shared interface-definition
//! ("API") packages.
//!
//! The crate models the four components of the system: the manifest data
//! model with its dependency-spec validation rules, the local package
//! store's install/uninstall/clear/release lifecycle, the registry
//! request/response protocol, and credential lifecycle management.
//! File, network and OS-keyring transfers are performed by a thin outer
//! layer; every decision and every state change is made here, under
//! contract.

use vstd::prelude::*;

pub mod assoc;
pub mod commands;
pub mod credentials;
pub mod docs;
pub mod id;
pub mod manifest;
pub mod registry;
pub mod store;

verus! {

/// The error taxonomy of the core.
///
/// Validation errors carry the offending substring verbatim; identity
/// errors (`FetchFailed`, `PublishFailed`) carry the identity of the
/// artifact concerned; `Clear` aggregates the names whose removal failed
/// during a best-effort bulk delete.
#[derive(Debug, PartialEq, Eq)]
pub enum Error {
    /// Malformed package id, repository name, version or dependency spec.
    Validation(String),
    /// Manifest missing, or a dependency not present for removal.
    NotFound(String),
    /// A persisted document could not be understood.
    Parse(String),
    /// The manifest has no `api` section, so there is nothing to release.
    NotAnApi,
    /// A project was already initialized here.
    AlreadyInitialized,
    /// Filesystem failure, with context.
    Io(String),
    /// Corrupt archive, with context.
    Archive(String),
    /// No registry connection is configured or no secret is stored.
    AuthUnavailable,
    /// No secret is stored for the requested registry connection.
    LoginRequired,
    /// A download answered with a non-success status; carries the
    /// dependency spec concerned.
    FetchFailed(String),
    /// An upload answered with a non-success status; carries the package
    /// name concerned.
    PublishFailed(String),
    /// The platform secret facility failed.
    SecretStore(String),
    /// Best-effort bulk delete: the names whose removal failed.
    Clear(Vec<String>),
}

} // verus!
