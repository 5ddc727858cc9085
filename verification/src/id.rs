//! Validated package identifiers.

use vstd::prelude::*;
use vstd::string::StrSliceExecFns;
use crate::Error;

verus! {

/// A character allowed in package identifiers and repository names:
/// lowercase ASCII letters and hyphens.
pub open spec fn is_lower_kebab_char(c: char) -> bool {
    ('a' <= c && c <= 'z') || c == '-'
}

/// A valid package identifier: nonempty, lowercase ASCII letters and
/// hyphens only.
pub open spec fn valid_package_id(s: Seq<char>) -> bool {
    &&& s.len() > 0
    &&& forall|i: int| 0 <= i < s.len() ==> is_lower_kebab_char(s[i])
}

/// A package identifier, guaranteed valid once constructed.
pub struct PackageId {
    id: String,
}

impl View for PackageId {
    type V = Seq<char>;

    closed spec fn view(&self) -> Seq<char> {
        self.id@
    }
}

impl Clone for PackageId {
    fn clone(&self) -> (r: Self)
        ensures
            r@ == self@,
    {
        PackageId { id: self.id.clone() }
    }
}

impl PackageId {
    pub open spec fn wf(&self) -> bool {
        valid_package_id(self@)
    }

    /// Validates and constructs an identifier; input outside the charset
    /// is rejected at construction.
    pub fn new(id: String) -> (r: Result<PackageId, Error>)
        ensures
            match r {
                Ok(p) => valid_package_id(id@) && p@ == id@,
                Err(e) => !valid_package_id(id@) && e is Validation,
            },
    {
        if !id.as_str().is_empty() && check_lower_kebab(id.as_str()) {
            Ok(PackageId { id })
        } else {
            Err(Error::Validation(id))
        }
    }

    /// The identifier as a string slice.
    pub fn as_str(&self) -> (r: &str)
        ensures
            r@ == self@,
    {
        self.id.as_str()
    }

    /// Whether two identifiers name the same package.
    pub fn matches(&self, other: &PackageId) -> (r: bool)
        ensures
            r == (self@ == other@),
    {
        self.id == other.id
    }
}

/// Checks every character of a string against the identifier charset.
pub fn check_lower_kebab(s: &str) -> (r: bool)
    ensures
        r == forall|i: int| 0 <= i < s@.len() ==> is_lower_kebab_char(s@[i]),
{
    let n = s.unicode_len();
    let mut k: usize = 0;
    while k < n
        invariant
            n == s@.len(),
            k <= n,
            forall|i: int| 0 <= i < k ==> is_lower_kebab_char(s@[i]),
        decreases n - k,
    {
        let c = s.get_char(k);
        if !(('a' <= c && c <= 'z') || c == '-') {
            assert(!is_lower_kebab_char(s@[k as int]));
            return false;
        }
        k += 1;
    }
    true
}

} // verus!
