//! The credential store: registry secrets keyed by endpoint and
//! username. The store models the OS-backed secret facility; the outer
//! layer mirrors every change to the platform keyring.

use vstd::prelude::*;
use crate::Error;
use crate::assoc::{
    map_of, unique_keys, lemma_map_of_contains, lemma_map_of_index, lemma_map_of_push,
    lemma_map_of_remove, lemma_map_of_absent,
};

verus! {

/// One stored secret: exactly one per (endpoint, username) key.
struct SecretEntry {
    endpoint: String,
    username: String,
    secret: String,
}

/// The key/value reading of a sequence of secret entries.
spec fn secret_entries(s: Seq<SecretEntry>) -> Seq<((Seq<char>, Seq<char>), Seq<char>)> {
    s.map_values(|e: SecretEntry| ((e.endpoint@, e.username@), e.secret@))
}

/// A secret store: at most one secret per (endpoint, username) key.
pub struct SecretStore {
    entries: Vec<SecretEntry>,
}

impl View for SecretStore {
    type V = Map<(Seq<char>, Seq<char>), Seq<char>>;

    closed spec fn view(&self) -> Map<(Seq<char>, Seq<char>), Seq<char>> {
        map_of(secret_entries(self.entries@))
    }
}

impl SecretStore {
    /// Well-formedness: keys are pairwise distinct.
    pub closed spec fn wf(&self) -> bool {
        unique_keys(secret_entries(self.entries@))
    }

    /// An empty secret store.
    pub fn new() -> (r: SecretStore)
        ensures
            r.wf(),
            r@ == Map::<(Seq<char>, Seq<char>), Seq<char>>::empty(),
    {
        SecretStore { entries: Vec::new() }
    }

    /// The index of the entry for a key, if one is stored.
    fn find_index(&self, endpoint: &String, username: &String) -> (r: Option<usize>)
        ensures
            match r {
                Some(i) => i < self.entries@.len()
                    && self.entries@[i as int].endpoint@ == endpoint@
                    && self.entries@[i as int].username@ == username@,
                None => forall|i: int| 0 <= i < self.entries@.len()
                    ==> !(self.entries@[i].endpoint@ == endpoint@
                        && self.entries@[i].username@ == username@),
            },
    {
        let n = self.entries.len();
        let mut k: usize = 0;
        while k < n
            invariant
                n == self.entries@.len(),
                k <= n,
                forall|i: int| 0 <= i < k ==> !(self.entries@[i].endpoint@ == endpoint@
                    && self.entries@[i].username@ == username@),
            decreases n - k,
        {
            if self.entries[k].endpoint == *endpoint && self.entries[k].username == *username {
                return Some(k);
            }
            k += 1;
        }
        None
    }

    /// Stores a secret under (endpoint, username), replacing any secret
    /// already stored under that key and no other.
    pub fn set(&mut self, endpoint: String, username: String, secret: String)
        requires
            old(self).wf(),
        ensures
            final(self).wf(),
            final(self)@ == old(self)@.insert((endpoint@, username@), secret@),
    {
        let ghost key = (endpoint@, username@);
        let ghost pre = self.entries@;
        match self.find_index(&endpoint, &username) {
            Some(i) => {
                proof {
                    lemma_map_of_remove(secret_entries(pre), i as int);
                }
                let _ = self.entries.remove(i);
                proof {
                    assert(secret_entries(self.entries@)
                        =~= secret_entries(pre).remove(i as int));
                }
            },
            None => {
                proof {
                    lemma_map_of_absent(secret_entries(pre), key);
                    assert(old(self)@.remove(key) =~= old(self)@);
                }
            },
        }
        let ghost mid = self.entries@;
        proof {
            assert(map_of(secret_entries(mid)) =~= old(self)@.remove(key));
            assert(forall|a: int| 0 <= a < mid.len()
                ==> #[trigger] secret_entries(mid)[a].0 != key) by {
                lemma_map_of_contains(secret_entries(mid), key);
                if exists|a: int| 0 <= a < mid.len()
                    && #[trigger] secret_entries(mid)[a].0 == key {
                    assert(map_of(secret_entries(mid)).contains_key(key));
                }
            }
            lemma_map_of_push(secret_entries(mid), key, secret@);
        }
        self.entries.push(SecretEntry { endpoint, username, secret });
        proof {
            assert(secret_entries(self.entries@)
                =~= secret_entries(mid).push((key, secret@)));
            assert(final(self)@ =~= old(self)@.insert(key, secret@));
            assert(forall|a: int, b: int| 0 <= a < b < self.entries@.len()
                ==> secret_entries(self.entries@)[a].0 != secret_entries(self.entries@)[b].0);
        }
    }

    /// Deletes the secret stored under a key; deleting an absent entry
    /// succeeds as a no-op.
    pub fn delete(&mut self, endpoint: &String, username: &String)
        requires
            old(self).wf(),
        ensures
            final(self).wf(),
            final(self)@ == old(self)@.remove((endpoint@, username@)),
            !old(self)@.contains_key((endpoint@, username@)) ==> final(self)@ == old(self)@,
    {
        let ghost key = (endpoint@, username@);
        let ghost pre = self.entries@;
        match self.find_index(endpoint, username) {
            Some(i) => {
                proof {
                    lemma_map_of_remove(secret_entries(pre), i as int);
                    lemma_map_of_contains(secret_entries(pre), key);
                }
                let _ = self.entries.remove(i);
                proof {
                    assert(secret_entries(self.entries@)
                        =~= secret_entries(pre).remove(i as int));
                    assert(final(self)@ =~= old(self)@.remove(key));
                    assert(forall|a: int, b: int| 0 <= a < b < self.entries@.len()
                        ==> secret_entries(self.entries@)[a].0
                            != secret_entries(self.entries@)[b].0);
                }
            },
            None => {
                proof {
                    lemma_map_of_absent(secret_entries(pre), key);
                    assert(old(self)@.remove(key) =~= old(self)@);
                }
            },
        }
    }

    /// Looks a secret up, read-only; fails with `LoginRequired` when no
    /// secret is stored under the key.
    pub fn resolve_secret(&self, endpoint: &String, username: &String) -> (r: Result<
        String,
        Error,
    >)
        requires
            self.wf(),
        ensures
            match r {
                Ok(s) => self@.contains_key((endpoint@, username@))
                    && s@ == self@[(endpoint@, username@)],
                Err(e) => !self@.contains_key((endpoint@, username@)) && e is LoginRequired,
            },
    {
        let ghost key = (endpoint@, username@);
        match self.find_index(endpoint, username) {
            Some(i) => {
                proof {
                    lemma_map_of_index(secret_entries(self.entries@), i as int);
                }
                Ok(self.entries[i].secret.clone())
            },
            None => {
                proof {
                    lemma_map_of_absent(secret_entries(self.entries@), key);
                }
                Err(Error::LoginRequired)
            },
        }
    }

    /// Whether a secret is stored under the key.
    pub fn contains(&self, endpoint: &String, username: &String) -> (r: bool)
        requires
            self.wf(),
        ensures
            r == self@.contains_key((endpoint@, username@)),
    {
        match self.resolve_secret(endpoint, username) {
            Ok(_) => true,
            Err(_) => false,
        }
    }
}

} // verus!
