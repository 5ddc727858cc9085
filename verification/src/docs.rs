//! The manifest as a structured document: the shape that is persisted.
//! The outer layer moves the document between this shape and the on-disk
//! file syntax; validation and the round-trip guarantee live here.

use vstd::prelude::*;
use crate::Error;
use crate::id::{PackageId, valid_package_id};
use crate::manifest::{
    ApiManifest, Dependency, Manifest, check_repository, check_version, valid_repository,
    valid_version,
};

verus! {

/// A dependency record of the document: raw strings.
pub struct DocDependency {
    pub repository: String,
    pub package: String,
    pub version: String,
}

/// The api section of the document: raw strings.
pub struct DocApi {
    pub name: String,
    pub version: String,
    pub description: Option<String>,
}

/// The persisted shape of a manifest.
pub struct ManifestDoc {
    pub api: Option<DocApi>,
    pub dependencies: Vec<DocDependency>,
}

/// The dependency records of a document, as view triples
/// (repository, package, version), in order.
pub open spec fn doc_dep_views(d: &ManifestDoc) -> Seq<(Seq<char>, Seq<char>, Seq<char>)> {
    d.dependencies@.map_values(|e: DocDependency| (e.repository@, e.package@, e.version@))
}

/// The dependency entries of a manifest, as the same view triples.
pub open spec fn manifest_dep_views(m: &Manifest) -> Seq<(Seq<char>, Seq<char>, Seq<char>)> {
    m.dependencies@.map_values(|e: Dependency| (e.repository@, e.package@, e.version@))
}

/// Validity of a dependency list: every record valid, package
/// identities pairwise distinct.
pub open spec fn deps_wf(deps: Seq<(Seq<char>, Seq<char>, Seq<char>)>) -> bool {
    &&& forall|i: int| 0 <= i < deps.len() ==> valid_repository((#[trigger] deps[i]).0)
        && valid_package_id(deps[i].1) && valid_version(deps[i].2)
    &&& forall|i: int, j: int| 0 <= i < j < deps.len() ==> deps[i].1 != deps[j].1
}

/// A readable document: a valid api name if an api section is present,
/// and a valid dependency list.
pub open spec fn doc_ok(d: &ManifestDoc) -> bool {
    &&& match d.api {
        Some(a) => valid_package_id(a.name@),
        None => true,
    }
    &&& deps_wf(doc_dep_views(d))
}

/// Whether the api sections of a manifest and a document agree.
pub open spec fn api_agrees(m: &Manifest, d: &ManifestDoc) -> bool {
    match (m.api, d.api) {
        (Some(a), Some(b)) => a.name@ == b.name@ && a.version@ == b.version@ && (match (
            a.description,
            b.description,
        ) {
            (Some(x), Some(y)) => x@ == y@,
            (None, None) => true,
            _ => false,
        }),
        (None, None) => true,
        _ => false,
    }
}

/// A well-formed manifest has a valid dependency list, so the document
/// written for it is readable: together with the contracts of `to_doc`
/// and `from_doc`, writing a manifest and reading it back yields an
/// equal dependency list in the same order.
pub proof fn lemma_manifest_deps_wf(m: &Manifest)
    requires
        m.wf(),
    ensures
        deps_wf(manifest_dep_views(m)),
{
    let deps = manifest_dep_views(m);
    assert(forall|i: int| 0 <= i < deps.len() ==> deps[i]
        == ((#[trigger] m.dependencies@[i]).repository@, m.dependencies@[i].package@,
        m.dependencies@[i].version@));
    assert forall|i: int| 0 <= i < deps.len() implies valid_repository((#[trigger] deps[i]).0)
        && valid_package_id(deps[i].1) && valid_version(deps[i].2) by {
        assert(m.dependencies@[i].wf());
    }
}

/// Serializes a manifest to its document; field for field, in order.
/// The document of a well-formed manifest is readable.
pub fn to_doc(m: &Manifest) -> (r: ManifestDoc)
    ensures
        api_agrees(m, &r),
        doc_dep_views(&r) == manifest_dep_views(m),
        m.wf() ==> doc_ok(&r),
{
    let api = match &m.api {
        Some(a) => Some(DocApi {
            name: a.name.as_str().to_owned(),
            version: a.version.clone(),
            description: match &a.description {
                Some(d) => Some(d.clone()),
                None => None,
            },
        }),
        None => None,
    };
    let n = m.dependencies.len();
    let mut dependencies: Vec<DocDependency> = Vec::new();
    let mut k: usize = 0;
    while k < n
        invariant
            n == m.dependencies@.len(),
            k <= n,
            dependencies@.len() == k,
            forall|i: int| 0 <= i < k ==> (#[trigger] dependencies@[i]).repository@
                == m.dependencies@[i].repository@
                && dependencies@[i].package@ == m.dependencies@[i].package@
                && dependencies@[i].version@ == m.dependencies@[i].version@,
        decreases n - k,
    {
        let d = &m.dependencies[k];
        dependencies.push(DocDependency {
            repository: d.repository.clone(),
            package: d.package.as_str().to_owned(),
            version: d.version.clone(),
        });
        k += 1;
    }
    let r = ManifestDoc { api, dependencies };
    proof {
        assert(doc_dep_views(&r) =~= manifest_dep_views(m));
        if m.wf() {
            lemma_manifest_deps_wf(m);
        }
    }
    r
}

/// Deserializes a document, validating every field and the uniqueness
/// of package identities; a malformed document yields `Parse` and a
/// readable one yields exactly its dependency list, in order.
pub fn from_doc(doc: &ManifestDoc) -> (r: Result<Manifest, Error>)
    ensures
        match r {
            Ok(m) => doc_ok(doc) && m.wf() && api_agrees(&m, doc)
                && manifest_dep_views(&m) == doc_dep_views(doc),
            Err(e) => !doc_ok(doc) && e is Parse,
        },
{
    let api = match &doc.api {
        Some(a) => {
            let name = match PackageId::new(a.name.clone()) {
                Ok(p) => p,
                Err(_) => {
                    return Err(Error::Parse(a.name.clone()));
                },
            };
            Some(ApiManifest {
                name,
                version: a.version.clone(),
                description: match &a.description {
                    Some(d) => Some(d.clone()),
                    None => None,
                },
            })
        },
        None => None,
    };
    let mut m = Manifest { api, dependencies: Vec::new() };
    let n = doc.dependencies.len();
    let mut k: usize = 0;
    while k < n
        invariant
            n == doc.dependencies@.len(),
            m.wf(),
            k <= n,
            api_agrees(&m, doc),
            m.dependencies@.len() == k,
            forall|i: int| 0 <= i < k ==> (#[trigger] m.dependencies@[i]).repository@
                == doc.dependencies@[i].repository@
                && m.dependencies@[i].package@ == doc.dependencies@[i].package@
                && m.dependencies@[i].version@ == doc.dependencies@[i].version@,
        decreases n - k,
    {
        let e = &doc.dependencies[k];
        proof {
            assert(doc_dep_views(doc)[k as int] == (e.repository@, e.package@, e.version@));
        }
        if !check_repository(e.repository.as_str()) {
            return Err(Error::Parse(e.repository.clone()));
        }
        let package = match PackageId::new(e.package.clone()) {
            Ok(p) => p,
            Err(_) => {
                return Err(Error::Parse(e.package.clone()));
            },
        };
        if !check_version(e.version.as_str()) {
            return Err(Error::Parse(e.version.clone()));
        }
        let dep = Dependency { repository: e.repository.clone(), package, version: e.version.clone() };
        match m.add_dependency(dep) {
            Ok(()) => {},
            Err(_) => {
                proof {
                    let deps = doc_dep_views(doc);
                    let w = choose|i: int| 0 <= i < k
                        && (#[trigger] m.dependencies@[i]).package@ == doc.dependencies@[k as int].package@;
                    assert(deps[w].1 == deps[k as int].1);
                }
                return Err(Error::Parse(e.package.clone()));
            },
        }
        k += 1;
    }
    proof {
        assert(manifest_dep_views(&m) =~= doc_dep_views(doc));
        assert(doc_ok(doc)) by {
            let deps = doc_dep_views(doc);
            assert forall|i: int| 0 <= i < deps.len() implies valid_repository((
                #[trigger] deps[i]).0) && valid_package_id(deps[i].1) && valid_version(deps[i].2)
                by {
                assert(m.dependencies@[i].wf());
            }
            assert forall|i: int, j: int| 0 <= i < j < deps.len() implies deps[i].1 != deps[j].1
                by {
                assert(m.dependencies@[i].package@ != m.dependencies@[j].package@);
            }
        }
    }
    Ok(m)
}

} // verus!
