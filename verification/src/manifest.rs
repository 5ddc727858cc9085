//! The manifest data model: pinned dependencies, the optional api
//! declaration, and the dependency-spec validation rules.

use vstd::prelude::*;
use vstd::string::StrSliceExecFns;
use vstd::string::StringExecFns;
use crate::Error;
use crate::id::{PackageId, is_lower_kebab_char, valid_package_id, check_lower_kebab};

verus! {

/// The infix every repository name must contain.
pub open spec fn proto_infix() -> Seq<char> {
    "-proto-"@
}

/// Whether the literal infix `-proto-` occurs in the string.
pub open spec fn contains_proto_infix(s: Seq<char>) -> bool {
    exists|i: int| 0 <= i && i + 7 <= s.len() && #[trigger] s.subrange(i, i + 7) == proto_infix()
}

/// A valid repository name: lowercase ASCII letters and hyphens only,
/// containing the literal infix `-proto-`.
pub open spec fn valid_repository(s: Seq<char>) -> bool {
    &&& forall|i: int| 0 <= i < s.len() ==> is_lower_kebab_char(s[i])
    &&& contains_proto_infix(s)
}

/// What `char::is_alphanumeric` returns: membership in the Unicode
/// alphabetic and numeric classes, a function of the character alone.
pub uninterp spec fn is_alphanum(c: char) -> bool;

/// Relies on `char::is_alphanumeric` of std; its result depends on the
/// character alone.
#[verifier::external_body]
fn char_is_alphanumeric(c: char) -> (r: bool)
    ensures
        r == is_alphanum(c),
{
    c.is_alphanumeric()
}

/// A character allowed in version strings: alphanumeric, `.` or `-`.
pub open spec fn is_version_char(c: char) -> bool {
    is_alphanum(c) || c == '.' || c == '-'
}

/// A valid version string: version characters only.
pub open spec fn valid_version(s: Seq<char>) -> bool {
    forall|i: int| 0 <= i < s.len() ==> is_version_char(s[i])
}

/// Checks every character of a string against the version charset.
pub fn check_version(s: &str) -> (r: bool)
    ensures
        r == valid_version(s@),
{
    let n = s.unicode_len();
    let mut k: usize = 0;
    while k < n
        invariant
            n == s@.len(),
            k <= n,
            forall|i: int| 0 <= i < k ==> is_version_char(s@[i]),
        decreases n - k,
    {
        let c = s.get_char(k);
        if !(char_is_alphanumeric(c) || c == '.' || c == '-') {
            assert(!is_version_char(s@[k as int]));
            return false;
        }
        k += 1;
    }
    true
}

/// Searches a string for the literal infix `-proto-`.
pub fn check_proto_infix(s: &str) -> (r: bool)
    ensures
        r == contains_proto_infix(s@),
{
    proof {
        reveal_strlit("-proto-");
    }
    let n = s.unicode_len();
    if n < 7 {
        proof {
            assert(!contains_proto_infix(s@)) by {
                if contains_proto_infix(s@) {
                    let i = choose|i: int| 0 <= i && i + 7 <= s@.len()
                        && #[trigger] s@.subrange(i, i + 7) == proto_infix();
                    assert(false);
                }
            }
        }
        return false;
    }
    let mut k: usize = 0;
    while k <= n - 7
        invariant
            7 <= n,
            n == s@.len(),
            k <= n - 6,
            forall|i: int| 0 <= i < k ==> #[trigger] s@.subrange(i, i + 7) != proto_infix(),
        decreases n - k,
    {
        let c0 = s.get_char(k);
        let c1 = s.get_char(k + 1);
        let c2 = s.get_char(k + 2);
        let c3 = s.get_char(k + 3);
        let c4 = s.get_char(k + 4);
        let c5 = s.get_char(k + 5);
        let c6 = s.get_char(k + 6);
        if c0 == '-' && c1 == 'p' && c2 == 'r' && c3 == 'o' && c4 == 't' && c5 == 'o'
            && c6 == '-' {
            proof {
                reveal_strlit("-proto-");
                let sub = s@.subrange(k as int, k as int + 7);
                assert(sub[0] == s@[k as int]);
                assert(sub[1] == s@[k as int + 1]);
                assert(sub[2] == s@[k as int + 2]);
                assert(sub[3] == s@[k as int + 3]);
                assert(sub[4] == s@[k as int + 4]);
                assert(sub[5] == s@[k as int + 5]);
                assert(sub[6] == s@[k as int + 6]);
                assert(sub =~= proto_infix());
            }
            return true;
        }
        proof {
            reveal_strlit("-proto-");
            let sub = s@.subrange(k as int, k as int + 7);
            assert(sub != proto_infix()) by {
                if sub == proto_infix() {
                    assert(sub[0] == '-' && sub[1] == 'p' && sub[2] == 'r' && sub[3] == 'o'
                        && sub[4] == 't' && sub[5] == 'o' && sub[6] == '-');
                    assert(sub[0] == s@[k as int]);
                    assert(sub[1] == s@[k as int + 1]);
                    assert(sub[2] == s@[k as int + 2]);
                    assert(sub[3] == s@[k as int + 3]);
                    assert(sub[4] == s@[k as int + 4]);
                    assert(sub[5] == s@[k as int + 5]);
                    assert(sub[6] == s@[k as int + 6]);
                    assert(false);
                }
            }
        }
        k += 1;
    }
    proof {
        assert(!contains_proto_infix(s@)) by {
            if contains_proto_infix(s@) {
                let i = choose|i: int| 0 <= i && i + 7 <= s@.len()
                    && #[trigger] s@.subrange(i, i + 7) == proto_infix();
                assert(i < k);
                assert(false);
            }
        }
    }
    false
}

/// Checks a repository name: charset and the `-proto-` infix.
pub fn check_repository(s: &str) -> (r: bool)
    ensures
        r == valid_repository(s@),
{
    check_lower_kebab(s) && check_proto_infix(s)
}

/// The position of the first occurrence of a character, or `-1`.
pub open spec fn find_char(s: Seq<char>, c: char) -> int
    decreases s.len(),
{
    if s.len() == 0 {
        -1
    } else if s[0] == c {
        0
    } else if find_char(s.drop_first(), c) == -1 {
        -1
    } else {
        find_char(s.drop_first(), c) + 1
    }
}

/// Characterizes `find_char`: `-1` means the character does not occur;
/// otherwise it points at the first occurrence.
pub proof fn lemma_find_char(s: Seq<char>, c: char)
    ensures
        find_char(s, c) == -1 ==> forall|i: int| 0 <= i < s.len() ==> s[i] != c,
        find_char(s, c) != -1 ==> 0 <= find_char(s, c) < s.len() && s[find_char(s, c)] == c
            && forall|i: int| 0 <= i < find_char(s, c) ==> s[i] != c,
    decreases s.len(),
{
    if s.len() == 0 {
    } else if s[0] == c {
    } else {
        lemma_find_char(s.drop_first(), c);
        let t = s.drop_first();
        assert(forall|i: int| 0 <= i < t.len() ==> t[i] == s[i + 1]);
        if find_char(t, c) == -1 {
            assert forall|i: int| 0 <= i < s.len() implies s[i] != c by {
                if i > 0 {
                    assert(t[i - 1] == s[i]);
                }
            }
        } else {
            let f = find_char(t, c);
            assert(s[f + 1] == t[f]);
            assert forall|i: int| 0 <= i < f + 1 implies s[i] != c by {
                if i > 0 {
                    assert(t[i - 1] == s[i]);
                }
            }
        }
    }
}

/// The first occurrence determines `find_char`.
pub proof fn lemma_find_char_at(s: Seq<char>, c: char, i: int)
    requires
        0 <= i < s.len(),
        s[i] == c,
        forall|k: int| 0 <= k < i ==> s[k] != c,
    ensures
        find_char(s, c) == i,
{
    lemma_find_char(s, c);
}

/// Finds the first occurrence of a character in a string.
pub fn find_char_index(s: &str, c: char) -> (r: Option<usize>)
    ensures
        match r {
            Some(i) => find_char(s@, c) == i as int,
            None => find_char(s@, c) == -1,
        },
{
    let n = s.unicode_len();
    let mut k: usize = 0;
    while k < n
        invariant
            n == s@.len(),
            k <= n,
            forall|i: int| 0 <= i < k ==> s@[i] != c,
        decreases n - k,
    {
        if s.get_char(k) == c {
            proof {
                lemma_find_char_at(s@, c, k as int);
            }
            return Some(k);
        }
        k += 1;
    }
    proof {
        lemma_find_char(s@, c);
    }
    None
}

/// The decomposition of a dependency spec `<repository>/<package>@<version>`:
/// split on the first `/`, validate the repository, split the remainder on
/// the first `@`, validate package and version. `None` on any failure.
pub open spec fn parse_spec(s: Seq<char>) -> Option<(Seq<char>, Seq<char>, Seq<char>)> {
    let i = find_char(s, '/');
    if i == -1 {
        None
    } else {
        let repo = s.subrange(0, i);
        let rest = s.subrange(i + 1, s.len() as int);
        if !valid_repository(repo) {
            None
        } else {
            let j = find_char(rest, '@');
            if j == -1 {
                None
            } else {
                let pkg = rest.subrange(0, j);
                let ver = rest.subrange(j + 1, rest.len() as int);
                if valid_package_id(pkg) && valid_version(ver) {
                    Some((repo, pkg, ver))
                } else {
                    None
                }
            }
        }
    }
}

/// A dependency spec rebuilt from its fields.
pub open spec fn format_spec(repo: Seq<char>, pkg: Seq<char>, ver: Seq<char>) -> Seq<char> {
    repo + "/"@ + pkg + "@"@ + ver
}

/// A pinned dependency: repository, package, exact version.
pub struct Dependency {
    pub repository: String,
    pub package: PackageId,
    pub version: String,
}

impl Dependency {
    /// Validity: repository charset and infix, package charset, version
    /// charset.
    pub open spec fn wf(&self) -> bool {
        &&& valid_repository(self.repository@)
        &&& self.package.wf()
        &&& valid_version(self.version@)
    }
}

impl Clone for Dependency {
    fn clone(&self) -> (r: Self)
        ensures
            r.repository@ == self.repository@,
            r.package@ == self.package@,
            r.version@ == self.version@,
            self.wf() ==> r.wf(),
    {
        Dependency {
            repository: self.repository.clone(),
            package: self.package.clone(),
            version: self.version.clone(),
        }
    }
}

/// Parses a dependency spec; any missing separator or failed validation
/// yields a `Validation` error carrying the offending substring.
pub fn parse_dependency(s: &str) -> (r: Result<Dependency, Error>)
    ensures
        match r {
            Ok(d) => parse_spec(s@) == Some((d.repository@, d.package@, d.version@)) && d.wf(),
            Err(e) => parse_spec(s@) is None && e is Validation,
        },
{
    let n = s.unicode_len();
    let slash = match find_char_index(s, '/') {
        Some(i) => i,
        None => {
            return Err(Error::Validation(s.to_owned()));
        },
    };
    proof {
        lemma_find_char(s@, '/');
    }
    let repository = s.substring_char(0, slash);
    let rest = s.substring_char(slash + 1, n);
    if !check_repository(repository) {
        return Err(Error::Validation(repository.to_owned()));
    }
    let at = match find_char_index(rest, '@') {
        Some(j) => j,
        None => {
            return Err(Error::Validation(s.to_owned()));
        },
    };
    proof {
        lemma_find_char(rest@, '@');
    }
    let pkg_str = rest.substring_char(0, at);
    let rest_len = rest.unicode_len();
    let ver = rest.substring_char(at + 1, rest_len);
    let package = match PackageId::new(pkg_str.to_owned()) {
        Ok(p) => p,
        Err(e) => {
            return Err(e);
        },
    };
    if !check_version(ver) {
        return Err(Error::Validation(ver.to_owned()));
    }
    Ok(Dependency { repository: repository.to_owned(), package, version: ver.to_owned() })
}

/// Rebuilds the spec string of a dependency.
pub fn format_dependency(d: &Dependency) -> (r: String)
    ensures
        r@ == format_spec(d.repository@, d.package@, d.version@),
{
    let mut out = String::new();
    out.append(d.repository.as_str());
    out.append("/");
    out.append(d.package.as_str());
    out.append("@");
    out.append(d.version.as_str());
    proof {
        assert(out@ =~= format_spec(d.repository@, d.package@, d.version@));
    }
    out
}

/// Parsing a rebuilt spec gives the fields back: for every valid
/// repository, package and version, the formatted string parses, and it
/// parses to exactly those fields.
pub proof fn lemma_parse_of_format(repo: Seq<char>, pkg: Seq<char>, ver: Seq<char>)
    requires
        valid_repository(repo),
        valid_package_id(pkg),
        valid_version(ver),
    ensures
        parse_spec(format_spec(repo, pkg, ver)) == Some((repo, pkg, ver)),
{
    reveal_strlit("/");
    reveal_strlit("@");
    let s = format_spec(repo, pkg, ver);
    let rl = repo.len() as int;
    let pl = pkg.len() as int;
    assert(s[rl] == '/');
    assert(forall|k: int| 0 <= k < rl ==> s[k] == repo[k]);
    assert(forall|k: int| 0 <= k < rl ==> is_lower_kebab_char(repo[k]) && repo[k] != '/');
    lemma_find_char_at(s, '/', rl);
    let rest = s.subrange(rl + 1, s.len() as int);
    assert(s.subrange(0, rl) =~= repo);
    assert(rest =~= pkg + "@"@ + ver);
    assert(rest[pl] == '@');
    assert(forall|k: int| 0 <= k < pl ==> rest[k] == pkg[k]);
    assert(forall|k: int| 0 <= k < pl ==> is_lower_kebab_char(pkg[k]) && pkg[k] != '@');
    lemma_find_char_at(rest, '@', pl);
    assert(rest.subrange(0, pl) =~= pkg);
    assert(rest.subrange(pl + 1, rest.len() as int) =~= ver);
}

/// A parsed spec, rebuilt from its fields, is the original string: the
/// two directions together make parsing and formatting a round trip on
/// valid specs.
pub proof fn lemma_format_of_parse(s: Seq<char>)
    requires
        parse_spec(s) is Some,
    ensures
        ({
            let (repo, pkg, ver) = parse_spec(s)->Some_0;
            format_spec(repo, pkg, ver) == s
        }),
{
    reveal_strlit("/");
    reveal_strlit("@");
    let i = find_char(s, '/');
    lemma_find_char(s, '/');
    let repo = s.subrange(0, i);
    let rest = s.subrange(i + 1, s.len() as int);
    let j = find_char(rest, '@');
    lemma_find_char(rest, '@');
    let pkg = rest.subrange(0, j);
    let ver = rest.subrange(j + 1, rest.len() as int);
    assert(format_spec(repo, pkg, ver) =~= s);
}

/// The project's own api declaration.
pub struct ApiManifest {
    pub name: PackageId,
    pub version: String,
    pub description: Option<String>,
}

impl ApiManifest {
    /// Validity: the declared name is a valid package identifier.
    pub open spec fn wf(&self) -> bool {
        self.name.wf()
    }
}

/// The project manifest: an optional api declaration and an ordered list
/// of pinned dependencies with pairwise-distinct package identities.
pub struct Manifest {
    pub api: Option<ApiManifest>,
    pub dependencies: Vec<Dependency>,
}

impl Manifest {
    /// Well-formedness: every entry valid, package identities unique.
    pub open spec fn wf(&self) -> bool {
        &&& match self.api {
            Some(a) => a.wf(),
            None => true,
        }
        &&& forall|i: int| 0 <= i < self.dependencies@.len() ==> (#[trigger] self.dependencies@[i]).wf()
        &&& forall|i: int, j: int|
            0 <= i < j < self.dependencies@.len()
                ==> self.dependencies@[i].package@ != self.dependencies@[j].package@
    }

    /// The index of the dependency on a package, if one is listed.
    fn find_index(&self, package: &PackageId) -> (r: Option<usize>)
        ensures
            match r {
                Some(i) => i < self.dependencies@.len()
                    && self.dependencies@[i as int].package@ == package@,
                None => forall|i: int| 0 <= i < self.dependencies@.len()
                    ==> self.dependencies@[i].package@ != package@,
            },
    {
        let n = self.dependencies.len();
        let mut k: usize = 0;
        while k < n
            invariant
                n == self.dependencies@.len(),
                k <= n,
                forall|i: int| 0 <= i < k ==> self.dependencies@[i].package@ != package@,
            decreases n - k,
        {
            if self.dependencies[k].package.matches(package) {
                return Some(k);
            }
            k += 1;
        }
        None
    }

    /// Appends a dependency; a second entry for a package already listed
    /// is rejected, and the manifest is left unmodified.
    pub fn add_dependency(&mut self, dep: Dependency) -> (r: Result<(), Error>)
        requires
            old(self).wf(),
            dep.wf(),
        ensures
            final(self).wf(),
            final(self).api == old(self).api,
            match r {
                Ok(()) => (forall|i: int| 0 <= i < old(self).dependencies@.len()
                        ==> old(self).dependencies@[i].package@ != dep.package@)
                    && final(self).dependencies@ == old(self).dependencies@.push(dep),
                Err(e) => (exists|i: int| 0 <= i < old(self).dependencies@.len()
                        && old(self).dependencies@[i].package@ == dep.package@)
                    && *final(self) == *old(self) && e is Validation,
            },
    {
        match self.find_index(&dep.package) {
            Some(_) => Err(Error::Validation(dep.package.as_str().to_owned())),
            None => {
                self.dependencies.push(dep);
                proof {
                    let s = self.dependencies@;
                    assert(forall|i: int| 0 <= i < s.len() - 1
                        ==> s[i] == old(self).dependencies@[i]);
                }
                Ok(())
            },
        }
    }

    /// Removes the single entry whose package matches; fails with
    /// `NotFound` if none does, leaving the manifest unmodified.
    pub fn remove_dependency(&mut self, package: &PackageId) -> (r: Result<Dependency, Error>)
        requires
            old(self).wf(),
        ensures
            final(self).wf(),
            final(self).api == old(self).api,
            match r {
                Ok(d) => exists|i: int| 0 <= i < old(self).dependencies@.len()
                    && old(self).dependencies@[i].package@ == package@
                    && d == old(self).dependencies@[i]
                    && final(self).dependencies@ == old(self).dependencies@.remove(i),
                Err(e) => (forall|i: int| 0 <= i < old(self).dependencies@.len()
                        ==> old(self).dependencies@[i].package@ != package@)
                    && *final(self) == *old(self) && e is NotFound,
            },
    {
        match self.find_index(package) {
            Some(k) => {
                let d = self.dependencies.remove(k);
                proof {
                    let s_old = old(self).dependencies@;
                    let s_new = self.dependencies@;
                    assert(s_new =~= s_old.subrange(0, k as int)
                        + s_old.subrange(k as int + 1, s_old.len() as int));
                    assert(forall|a: int| 0 <= a < k ==> s_new[a] == s_old[a]);
                    assert(forall|a: int| k <= a < s_new.len() ==> s_new[a] == s_old[a + 1]);
                }
                Ok(d)
            },
            None => Err(Error::NotFound(package.as_str().to_owned())),
        }
    }
}

} // verus!
