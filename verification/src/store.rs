//! The local package store: installed packages, keyed by package
//! identity. The store models the per-package locations of the on-disk
//! cache; the outer layer mirrors every change to the filesystem.

use vstd::prelude::*;
use crate::Error;
use crate::assoc::{
    map_of, unique_keys, lemma_map_of_contains, lemma_map_of_index, lemma_map_of_push,
    lemma_map_of_remove, lemma_map_of_absent,
};
use crate::id::PackageId;

verus! {

/// The contents of a package, as the contracts see them.
pub struct PackageData {
    pub name: Seq<char>,
    pub version: Seq<char>,
    pub tgz: Seq<u8>,
}

/// An installable, publishable unit: a named, versioned archive.
pub struct Package {
    pub name: PackageId,
    pub version: String,
    pub tgz: Vec<u8>,
}

impl View for Package {
    type V = PackageData;

    open spec fn view(&self) -> PackageData {
        PackageData { name: self.name@, version: self.version@, tgz: self.tgz@ }
    }
}

/// The key/value reading of a sequence of packages.
pub open spec fn entries_of(s: Seq<Package>) -> Seq<(Seq<char>, PackageData)> {
    s.map_values(|p: Package| (p@.name, p@))
}

/// The entries kept by a best-effort bulk delete: those whose removal
/// failed, in their original order.
pub open spec fn kept_upto(s: Seq<Package>, failed: Seq<bool>, k: int) -> Seq<Package>
    decreases k,
{
    if k <= 0 {
        Seq::empty()
    } else if failed[k - 1] {
        kept_upto(s, failed, k - 1).push(s[k - 1])
    } else {
        kept_upto(s, failed, k - 1)
    }
}

/// Whether a package is one of the first `k` originals whose removal
/// failed.
pub open spec fn kept_from(s: Seq<Package>, f: Seq<bool>, k: int, p: Package) -> bool {
    exists|i: int| 0 <= i < k && #[trigger] f[i] && p == s[i]
}

/// The names of a sequence of packages, in order.
pub open spec fn names_of(s: Seq<Package>) -> Seq<Seq<char>> {
    s.map_values(|p: Package| p@.name)
}

/// The local package store: one location per package identity;
/// reinstalling overwrites, uninstalling is idempotent.
pub struct PackageStore {
    packages: Vec<Package>,
}

impl View for PackageStore {
    type V = Map<Seq<char>, PackageData>;

    closed spec fn view(&self) -> Map<Seq<char>, PackageData> {
        map_of(entries_of(self.packages@))
    }
}

impl PackageStore {
    /// Well-formedness: package identities are pairwise distinct.
    pub closed spec fn wf(&self) -> bool {
        unique_keys(entries_of(self.packages@))
    }

    /// The installed entries, in order.
    pub closed spec fn name_seq(&self) -> Seq<Seq<char>> {
        names_of(self.packages@)
    }

    /// The number of installed packages.
    pub closed spec fn entry_count(&self) -> nat {
        self.packages@.len()
    }

    /// The installed entries, in order, as the contracts see them.
    pub closed spec fn pkg_seq(&self) -> Seq<Package> {
        self.packages@
    }

    /// An empty store.
    pub fn new() -> (r: PackageStore)
        ensures
            r.wf(),
            r@ == Map::<Seq<char>, PackageData>::empty(),
            r.entry_count() == 0,
    {
        PackageStore { packages: Vec::new() }
    }

    /// A name is installed exactly when some entry carries it.
    pub proof fn lemma_contains_name(&self, n: Seq<char>)
        ensures
            self@.contains_key(n) <==> self.name_seq().contains(n),
    {
        lemma_map_of_contains(entries_of(self.packages@), n);
        if self@.contains_key(n) {
            let i = choose|i: int| 0 <= i < entries_of(self.packages@).len()
                && entries_of(self.packages@)[i].0 == n;
            assert(self.name_seq()[i] == n);
        }
        if self.name_seq().contains(n) {
            let i = choose|i: int| 0 <= i < self.name_seq().len() && self.name_seq()[i] == n;
            assert(entries_of(self.packages@)[i].0 == n);
        }
    }

    /// The index of the entry for a name, if one is installed.
    fn find_index(&self, name: &PackageId) -> (r: Option<usize>)
        ensures
            match r {
                Some(i) => i < self.packages@.len() && self.packages@[i as int]@.name == name@,
                None => forall|i: int| 0 <= i < self.packages@.len()
                    ==> self.packages@[i]@.name != name@,
            },
    {
        let n = self.packages.len();
        let mut k: usize = 0;
        while k < n
            invariant
                n == self.packages@.len(),
                k <= n,
                forall|i: int| 0 <= i < k ==> self.packages@[i]@.name != name@,
            decreases n - k,
        {
            if self.packages[k].name.matches(name) {
                return Some(k);
            }
            k += 1;
        }
        None
    }

    /// Whether a package with this identity is installed.
    pub fn contains(&self, name: &PackageId) -> (r: bool)
        requires
            self.wf(),
        ensures
            r == self@.contains_key(name@),
    {
        proof {
            lemma_map_of_contains(entries_of(self.packages@), name@);
        }
        match self.find_index(name) {
            Some(i) => {
                proof {
                    assert(entries_of(self.packages@)[i as int].0 == name@);
                }
                true
            },
            None => {
                proof {
                    assert(forall|i: int| 0 <= i < entries_of(self.packages@).len()
                        ==> entries_of(self.packages@)[i].0 != name@);
                }
                false
            },
        }
    }

    /// Installs a package into its per-package location; idempotent —
    /// reinstalling a name overwrites the prior contents; entries of
    /// other names are untouched.
    pub fn install(&mut self, package: Package)
        requires
            old(self).wf(),
        ensures
            final(self).wf(),
            final(self)@ == old(self)@.insert(package@.name, package@),
    {
        let ghost pre = self.packages@;
        match self.find_index(&package.name) {
            Some(i) => {
                proof {
                    lemma_map_of_remove(entries_of(pre), i as int);
                }
                let _ = self.packages.remove(i);
                proof {
                    assert(entries_of(self.packages@) =~= entries_of(pre).remove(i as int));
                    assert(forall|a: int| 0 <= a < self.packages@.len()
                        ==> entries_of(self.packages@)[a] == entries_of(pre).remove(i as int)[a]);
                }
            },
            None => {
                proof {
                    lemma_map_of_absent(entries_of(pre), package@.name);
                    assert(old(self)@.remove(package@.name) =~= old(self)@);
                }
            },
        }
        let ghost mid = self.packages@;
        proof {
            assert(map_of(entries_of(mid)) =~= old(self)@.remove(package@.name));
            assert(unique_keys(entries_of(mid)));
            assert(forall|a: int| 0 <= a < mid.len()
                ==> #[trigger] entries_of(mid)[a].0 != package@.name) by {
                lemma_map_of_contains(entries_of(mid), package@.name);
                if exists|a: int| 0 <= a < mid.len()
                    && #[trigger] entries_of(mid)[a].0 == package@.name {
                    assert(map_of(entries_of(mid)).contains_key(package@.name));
                }
            }
            lemma_map_of_push(entries_of(mid), package@.name, package@);
        }
        self.packages.push(package);
        proof {
            assert(entries_of(self.packages@) =~= entries_of(mid).push((package@.name, package@)));
            assert(final(self)@ =~= old(self)@.insert(package@.name, package@));
            assert(forall|a: int, b: int| 0 <= a < b < self.packages@.len()
                ==> entries_of(self.packages@)[a].0 != entries_of(self.packages@)[b].0);
        }
    }

    /// Removes the location of a package if present; uninstalling a
    /// package that was never installed succeeds as a no-op.
    pub fn uninstall(&mut self, name: &PackageId)
        requires
            old(self).wf(),
        ensures
            final(self).wf(),
            final(self)@ == old(self)@.remove(name@),
            !old(self)@.contains_key(name@) ==> final(self)@ == old(self)@,
    {
        let ghost pre = self.packages@;
        match self.find_index(name) {
            Some(i) => {
                proof {
                    lemma_map_of_remove(entries_of(pre), i as int);
                }
                let _ = self.packages.remove(i);
                proof {
                    assert(entries_of(self.packages@) =~= entries_of(pre).remove(i as int));
                    assert(final(self)@ =~= old(self)@.remove(name@));
                    assert(forall|a: int, b: int| 0 <= a < b < self.packages@.len()
                        ==> entries_of(self.packages@)[a].0 != entries_of(self.packages@)[b].0);
                    lemma_map_of_contains(entries_of(pre), name@);
                }
            },
            None => {
                proof {
                    lemma_map_of_absent(entries_of(pre), name@);
                    assert(old(self)@.remove(name@) =~= old(self)@);
                }
            },
        }
    }

    /// The installed names, in entry order; the outer layer walks this
    /// list when it mirrors a bulk delete to disk.
    pub fn installed_names(&self) -> (r: Vec<String>)
        ensures
            r.deep_view() == self.name_seq(),
    {
        let n = self.packages.len();
        let mut out: Vec<String> = Vec::new();
        let mut k: usize = 0;
        while k < n
            invariant
                n == self.packages@.len(),
                k <= n,
                out@.len() == k,
                forall|i: int| 0 <= i < k ==> out@[i]@ == self.packages@[i]@.name,
            decreases n - k,
        {
            out.push(self.packages[k].name.as_str().to_owned());
            k += 1;
        }
        proof {
            assert(out.deep_view() =~= self.name_seq());
        }
        out
    }

    /// Best-effort bulk delete. `failed[i]` reports whether removing the
    /// i-th installed entry from disk failed; entries whose removal
    /// failed stay installed, every other entry is removed, and the
    /// aggregate error lists the names whose removal failed, in order.
    pub fn clear(&mut self, failed: &Vec<bool>) -> (r: Result<(), Error>)
        requires
            old(self).wf(),
            failed@.len() == old(self).entry_count(),
        ensures
            final(self).wf(),
            final(self).name_seq() == names_of(kept_upto(old(self).pkg_seq(), failed@,
                failed@.len() as int)),
            forall|n: Seq<char>| #[trigger] final(self)@.contains_key(n)
                ==> old(self)@.contains_key(n) && final(self)@[n] == old(self)@[n],
            forall|i: int| 0 <= i < failed@.len() && !failed@[i]
                ==> !final(self)@.contains_key(old(self).name_seq()[i]),
            forall|i: int| 0 <= i < failed@.len() && failed@[i]
                ==> final(self)@.contains_key(old(self).name_seq()[i]),
            match r {
                Ok(()) => (forall|i: int| 0 <= i < failed@.len() ==> !failed@[i])
                    && final(self)@ == Map::<Seq<char>, PackageData>::empty(),
                Err(e) => match e {
                    Error::Clear(ns) => ns.deep_view() == names_of(kept_upto(
                        old(self).pkg_seq(), failed@, failed@.len() as int))
                        && exists|i: int| 0 <= i < failed@.len() && failed@[i],
                    _ => false,
                },
            },
    {
        let ghost orig = self.packages@;
        let n = self.packages.len();
        let mut failures: Vec<String> = Vec::new();
        let mut i: usize = 0;
        let mut k: usize = 0;
        while k < n
            invariant
                n == orig.len(),
                failed@.len() == n,
                k <= n,
                i <= k,
                i as int == kept_upto(orig, failed@, k as int).len(),
                self.packages@ == kept_upto(orig, failed@, k as int)
                    + orig.subrange(k as int, n as int),
                failures@.len() == i,
                forall|j: int| 0 <= j < failures@.len()
                    ==> failures@[j]@ == names_of(kept_upto(orig, failed@, k as int))[j],
                unique_keys(entries_of(orig)),
            decreases n - k,
        {
            let ghost kept_k = kept_upto(orig, failed@, k as int);
            proof {
                assert(self.packages@[i as int] == orig[k as int]);
            }
            if failed[k] {
                let ghost pre_failures = failures@;
                let name = self.packages[i].name.as_str().to_owned();
                failures.push(name);
                i += 1;
                proof {
                    assert(kept_upto(orig, failed@, k as int + 1) == kept_k.push(orig[k as int]));
                    assert(self.packages@ =~= kept_k.push(orig[k as int])
                        + orig.subrange(k as int + 1, n as int));
                    let names1 = names_of(kept_upto(orig, failed@, k as int + 1));
                    assert forall|j: int| 0 <= j < failures@.len()
                        implies failures@[j]@ == names1[j] by {
                        if j < pre_failures.len() {
                            assert(failures@[j] == pre_failures[j]);
                            assert(names1[j] == names_of(kept_k)[j]);
                        } else {
                            assert(names1[j] == orig[k as int]@.name);
                        }
                    }
                }
            } else {
                let _ = self.packages.remove(i);
                proof {
                    assert(kept_upto(orig, failed@, k as int + 1) == kept_k);
                    assert(self.packages@ =~= kept_k
                        + orig.subrange(k as int + 1, n as int));
                }
            }
            k += 1;
        }
        let ghost kept = kept_upto(orig, failed@, n as int);
        proof {
            assert(self.packages@ =~= kept);
            assert(failures.deep_view() =~= names_of(kept));
            lemma_kept_upto(orig, failed@, n as int);
            assert(forall|a: int, b: int| 0 <= a < b < kept.len()
                ==> entries_of(kept)[a].0 != entries_of(kept)[b].0);
            lemma_kept_map(orig, failed@, n as int);
        }
        if failures.len() == 0 {
            proof {
                assert(kept.len() == 0);
                assert(entries_of(kept) =~= Seq::<(Seq<char>, PackageData)>::empty());
                assert(final(self)@ =~= Map::<Seq<char>, PackageData>::empty());
                assert forall|j: int| 0 <= j < failed@.len() implies !failed@[j] by {
                    lemma_kept_upto_len(orig, failed@, n as int, j);
                }
            }
            Ok(())
        } else {
            proof {
                assert(kept.len() == failures@.len());
                assert(kept.len() > 0);
                lemma_kept_upto_nonempty(orig, failed@, n as int);
            }
            Err(Error::Clear(failures))
        }
    }
}

/// Every kept entry is an original entry whose removal failed, kept
/// entries come from distinct original positions, and each original
/// entry appears among the kept ones exactly when its removal failed.
pub proof fn lemma_kept_upto(s: Seq<Package>, f: Seq<bool>, k: int)
    requires
        0 <= k <= s.len(),
        f.len() == s.len(),
        unique_keys(entries_of(s)),
    ensures
        forall|j: int| 0 <= j < kept_upto(s, f, k).len()
            ==> kept_from(s, f, k, #[trigger] kept_upto(s, f, k)[j]),
        unique_keys(entries_of(kept_upto(s, f, k))),
        forall|i: int| 0 <= i < k && f[i]
            ==> map_of(entries_of(kept_upto(s, f, k))).contains_key(s[i]@.name),
    decreases k,
{
    let kept = kept_upto(s, f, k);
    if k > 0 {
        lemma_kept_upto(s, f, k - 1);
        let prev = kept_upto(s, f, k - 1);
        if f[k - 1] {
            assert(kept == prev.push(s[k - 1]));
            assert(forall|j: int| 0 <= j < prev.len() ==> kept[j] == prev[j]);
            assert(kept[kept.len() - 1] == s[k - 1]);
            assert forall|j: int| 0 <= j < kept.len()
                implies kept_from(s, f, k, #[trigger] kept[j]) by {
                if j < prev.len() {
                    assert(kept_from(s, f, k - 1, prev[j]));
                    let i = choose|i: int| 0 <= i < k - 1 && #[trigger] f[i] && prev[j] == s[i];
                    assert(0 <= i < k && f[i] && kept[j] == s[i]);
                } else {
                    assert(f[k - 1] && kept[j] == s[k - 1]);
                }
            }
            assert forall|a: int, b: int| 0 <= a < b < kept.len()
                implies entries_of(kept)[a].0 != entries_of(kept)[b].0 by {
                if b == kept.len() - 1 {
                    assert(kept_from(s, f, k - 1, prev[a]));
                    let ia = choose|i: int| 0 <= i < k - 1 && #[trigger] f[i] && prev[a] == s[i];
                    assert(entries_of(s)[ia].0 != entries_of(s)[k - 1].0);
                } else {
                    assert(entries_of(prev)[a].0 != entries_of(prev)[b].0);
                }
            }
            assert forall|i: int| 0 <= i < k && f[i]
                implies map_of(entries_of(kept)).contains_key(s[i]@.name) by {
                lemma_map_of_contains(entries_of(kept), s[i]@.name);
                if i == k - 1 {
                    assert(entries_of(kept)[kept.len() - 1].0 == s[i]@.name);
                } else {
                    lemma_map_of_contains(entries_of(prev), s[i]@.name);
                    let w = choose|w: int| 0 <= w < prev.len()
                        && entries_of(prev)[w].0 == s[i]@.name;
                    assert(entries_of(kept)[w].0 == s[i]@.name);
                }
            }
        } else {
            assert(kept == prev);
            assert forall|j: int| #![trigger kept_upto(s, f, k)[j]] 0 <= j < kept.len()
                implies exists|i: int| 0 <= i < k && #[trigger] f[i] && kept[j] == s[i] by {
                let i = choose|i: int| 0 <= i < k - 1 && #[trigger] f[i] && prev[j] == s[i];
                assert(0 <= i < k && f[i] && kept[j] == s[i]);
            }
        }
    }
}

/// The map denoted by the kept entries is contained in the original map.
pub proof fn lemma_kept_map(s: Seq<Package>, f: Seq<bool>, k: int)
    requires
        0 <= k <= s.len(),
        f.len() == s.len(),
        unique_keys(entries_of(s)),
    ensures
        forall|n: Seq<char>| #[trigger] map_of(entries_of(kept_upto(s, f, k))).contains_key(n)
            ==> map_of(entries_of(s)).contains_key(n)
                && map_of(entries_of(kept_upto(s, f, k)))[n] == map_of(entries_of(s))[n],
        forall|i: int| 0 <= i < k && !f[i]
            ==> !map_of(entries_of(kept_upto(s, f, k))).contains_key(s[i]@.name),
{
    let kept = kept_upto(s, f, k);
    lemma_kept_upto(s, f, k);
    assert forall|n: Seq<char>| #[trigger] map_of(entries_of(kept)).contains_key(n)
        implies map_of(entries_of(s)).contains_key(n)
            && map_of(entries_of(kept))[n] == map_of(entries_of(s))[n] by {
        lemma_map_of_contains(entries_of(kept), n);
        let j = choose|j: int| 0 <= j < kept.len() && entries_of(kept)[j].0 == n;
        lemma_map_of_index(entries_of(kept), j);
        assert(kept_from(s, f, k, kept[j]));
        let i = choose|i: int| 0 <= i < k && #[trigger] f[i] && kept[j] == s[i];
        lemma_map_of_index(entries_of(s), i);
    }
    assert forall|i: int| 0 <= i < k && !f[i]
        implies !map_of(entries_of(kept)).contains_key(s[i]@.name) by {
        lemma_map_of_contains(entries_of(kept), s[i]@.name);
        if map_of(entries_of(kept)).contains_key(s[i]@.name) {
            let j = choose|j: int| 0 <= j < kept.len()
                && entries_of(kept)[j].0 == s[i]@.name;
            assert(kept_from(s, f, k, kept[j]));
            let w = choose|w: int| 0 <= w < k && #[trigger] f[w] && kept[j] == s[w];
            assert(entries_of(s)[w].0 == entries_of(s)[i].0);
            assert(w != i);
            assert(false);
        }
    }
}

/// If nothing was kept up to `k`, no flag before `k` is set.
pub proof fn lemma_kept_upto_len(s: Seq<Package>, f: Seq<bool>, k: int, j: int)
    requires
        0 <= j < k,
        kept_upto(s, f, k).len() == 0,
    ensures
        !f[j],
    decreases k,
{
    if j == k - 1 {
    } else {
        lemma_kept_upto_len(s, f, k - 1, j);
    }
}

/// If some flag before `k` is set, something was kept.
pub proof fn lemma_kept_upto_nonempty(s: Seq<Package>, f: Seq<bool>, k: int)
    requires
        kept_upto(s, f, k).len() > 0,
    ensures
        exists|i: int| 0 <= i < k && f[i],
    decreases k,
{
    if k > 0 {
        if f[k - 1] {
            assert(0 <= k - 1 < k && f[k - 1]);
        } else {
            lemma_kept_upto_nonempty(s, f, k - 1);
        }
    }
}

/// Concurrent installs of two distinct packages do not interfere: the
/// two orders give the same store, and each package ends up installed
/// with its own contents.
pub proof fn lemma_install_commutes(m: Map<Seq<char>, PackageData>, p1: PackageData,
    p2: PackageData)
    requires
        p1.name != p2.name,
    ensures
        m.insert(p1.name, p1).insert(p2.name, p2) == m.insert(p2.name, p2).insert(p1.name, p1),
        m.insert(p1.name, p1).insert(p2.name, p2).contains_key(p1.name),
        m.insert(p1.name, p1).insert(p2.name, p2)[p1.name] == p1,
        m.insert(p1.name, p1).insert(p2.name, p2).contains_key(p2.name),
        m.insert(p1.name, p1).insert(p2.name, p2)[p2.name] == p2,
{
    assert(m.insert(p1.name, p1).insert(p2.name, p2)
        =~= m.insert(p2.name, p2).insert(p1.name, p1));
}

} // verus!
