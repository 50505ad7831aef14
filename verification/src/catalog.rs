//! The local catalog of installed tool versions: an explicit owned state with
//! install, activate and uninstall transitions, each reporting whether the
//! catalog file must be rewritten.

use vstd::prelude::*;

use crate::errors::MissingInstallDirError;
use crate::resolve::{best_match, sorted_strict};
use crate::version::{version_lt, Version, VersionReq};

verus! {

/// The catalog of Node versions available locally.
pub struct NodeCatalog {
    /// The currently activated Node version, if any.
    pub activated: Option<Version>,
    /// The installed versions, strictly ascending.
    pub versions: Vec<Version>,
}

/// The catalog of tool versions available locally.
pub struct Catalog {
    pub node: NodeCatalog,
}

/// The result handed back by the installer collaborator: either a version it
/// has just put on disk, or one that was already there.
#[derive(Clone, Copy, Debug)]
pub enum Installed {
    /// The version was installed by this call.
    Now(Version),
    /// The version was already installed.
    Already(Version),
}

impl Installed {
    /// The version the installer reported, whichever way.
    pub open spec fn spec_version(&self) -> Version {
        match *self {
            Installed::Now(v) => v,
            Installed::Already(v) => v,
        }
    }

    /// Extracts the version the installer reported.
    pub fn into_version(self) -> (v: Version)
        ensures
            v == self.spec_version(),
    {
        match self {
            Installed::Now(v) => v,
            Installed::Already(v) => v,
        }
    }
}

/// The activation transition: the new activated entry, and whether the
/// catalog file must be rewritten (only on change).
pub open spec fn spec_activate(activated: Option<Version>, v: Version) -> (Option<Version>, bool) {
    (Some(v), activated != Some(v))
}

impl NodeCatalog {
    /// The versions vector is strictly ascending: sorted with no duplicates.
    pub open spec fn well_formed(&self) -> bool {
        sorted_strict(self.versions@)
    }

    /// The installed versions, as a set.
    pub open spec fn version_set(&self) -> Set<Version> {
        self.versions@.to_set()
    }

    /// Tests whether this catalog contains the specified version.
    pub fn contains(&self, version: &Version) -> (r: bool)
        ensures
            r == self.versions@.contains(*version),
    {
        let n = self.versions.len();
        let mut i: usize = 0;
        while i < n
            invariant
                n == self.versions.len(),
                i <= n,
                forall|k: int| 0 <= k < i ==> self.versions@[k] != *version,
            decreases n - i,
        {
            if self.versions[i] == *version {
                return true;
            }
            i += 1;
        }
        false
    }

    /// Resolves a requirement against the local catalog: the highest
    /// installed version satisfying it, found by a descending scan.
    pub fn resolve_local(&self, req: &VersionReq) -> (r: Option<Version>)
        ensures
            r == best_match(self.versions@, *req),
    {
        let mut i: usize = self.versions.len();
        proof {
            assert(self.versions@.subrange(0, i as int) =~= self.versions@);
        }
        while i > 0
            invariant
                i <= self.versions.len(),
                best_match(self.versions@, *req) == best_match(
                    self.versions@.subrange(0, i as int),
                    *req,
                ),
            decreases i,
        {
            i -= 1;
            let v = self.versions[i];
            let ghost sub = self.versions@.subrange(0, i as int + 1);
            proof {
                assert(sub.last() == v);
                assert(sub.drop_last() =~= self.versions@.subrange(0, i as int));
            }
            if req.matches(&v) {
                return Some(v);
            }
        }
        proof {
            assert(self.versions@.subrange(0, 0) =~= Seq::<Version>::empty());
        }
        None
    }

    /// Inserts a version, keeping the vector strictly ascending; a version
    /// already present leaves the catalog exactly as it was.
    pub(crate) fn insert_version(&mut self, version: &Version)
        requires
            old(self).well_formed(),
        ensures
            final(self).well_formed(),
            final(self).activated == old(self).activated,
            final(self).version_set() =~= old(self).version_set().insert(*version),
            old(self).versions@.contains(*version) ==> *final(self) == *old(self),
    {
        let ghost os = self.versions@;
        let n = self.versions.len();
        let mut k: usize = 0;
        loop
            invariant
                *self == *old(self),
                n == self.versions.len(),
                os == self.versions@,
                sorted_strict(os),
                k <= n,
                forall|j: int| 0 <= j < k ==> version_lt(#[trigger] os[j], *version)
                    && os[j] != *version,
            ensures
                k <= n,
                forall|j: int| 0 <= j < k ==> version_lt(#[trigger] os[j], *version)
                    && os[j] != *version,
                k < n ==> version_lt(*version, os[k as int]),
            decreases n - k,
        {
            if k >= n {
                break;
            }
            let w = self.versions[k];
            if w == *version {
                proof {
                    assert(os[k as int] == *version);
                    assert(os.contains(*version));
                    assert forall|x: Version|
                        old(self).version_set().insert(*version).contains(x)
                            implies self.version_set().contains(x) by {
                    }
                    assert(self.version_set() =~= old(self).version_set().insert(*version));
                }
                return;
            }
            if version.lt(&w) {
                break;
            }
            proof {
                assert(version_lt(os[k as int], *version));
            }
            k += 1;
        }
        proof {
            assert forall|j: int| 0 <= j < os.len() implies os[j] != *version by {
                if j > k {
                    assert(version_lt(os[k as int], os[j]));
                }
            }
            assert(!os.contains(*version));
            os.insert_ensures(k as int, *version);
        }
        self.versions.insert(k, *version);
        proof {
            let ns = self.versions@;
            assert(ns == os.insert(k as int, *version));
            assert forall|i: int, j: int| 0 <= i < j < ns.len() implies version_lt(
                ns[i],
                ns[j],
            ) by {
                if j < k {
                    assert(version_lt(os[i], os[j]));
                } else if i < k && j == k {
                    assert(version_lt(os[i], *version));
                } else if i < k && j > k {
                    assert(version_lt(os[i], os[j - 1]));
                    assert(ns[j] == os[j - 1]);
                } else if i == k {
                    assert(version_lt(*version, os[k as int]));
                    if j > k + 1 {
                        assert(version_lt(os[k as int], os[j - 1]));
                    }
                    assert(ns[j] == os[j - 1]);
                } else {
                    assert(version_lt(os[i - 1], os[j - 1]));
                    assert(ns[i] == os[i - 1] && ns[j] == os[j - 1]);
                }
            }
            assert forall|x: Version| ns.contains(x) implies (os.contains(x) || x
                == *version) by {
                let i = choose|i: int| 0 <= i < ns.len() && ns[i] == x;
                if i < k {
                    assert(os[i] == x);
                } else if i > k {
                    assert(ns[i] == os[i - 1]);
                    assert(os[i - 1] == x);
                }
            }
            assert forall|x: Version| os.contains(x) implies ns.contains(x) by {
                let i = choose|i: int| 0 <= i < os.len() && os[i] == x;
                if i < k {
                    assert(ns[i] == x);
                } else {
                    assert(ns[i + 1] == os[i]);
                    assert(ns[i + 1] == x);
                }
            }
            assert(ns[k as int] == *version);
            assert(ns.contains(*version));
            assert(self.version_set() =~= old(self).version_set().insert(*version));
        }
    }

    /// Removes a version, keeping the vector strictly ascending; an absent
    /// version leaves the catalog exactly as it was.
    fn remove_version(&mut self, version: &Version)
        requires
            old(self).well_formed(),
        ensures
            final(self).well_formed(),
            final(self).activated == old(self).activated,
            final(self).version_set() =~= old(self).version_set().remove(*version),
            !old(self).versions@.contains(*version) ==> *final(self) == *old(self),
    {
        let ghost os = self.versions@;
        let n = self.versions.len();
        let mut k: usize = 0;
        while k < n
            invariant
                *self == *old(self),
                n == self.versions.len(),
                os == self.versions@,
                sorted_strict(os),
                k <= n,
                forall|j: int| 0 <= j < k ==> #[trigger] os[j] != *version,
            decreases n - k,
        {
            if self.versions[k] == *version {
                proof {
                    os.remove_ensures(k as int);
                }
                self.versions.remove(k);
                proof {
                    let ns = self.versions@;
                    assert(ns == os.remove(k as int));
                    assert forall|i: int, j: int| 0 <= i < j < ns.len() implies version_lt(
                        ns[i],
                        ns[j],
                    ) by {
                        if j < k {
                            assert(ns[i] == os[i] && ns[j] == os[j]);
                            assert(version_lt(os[i], os[j]));
                        } else if i < k {
                            assert(ns[i] == os[i] && ns[j] == os[j + 1]);
                            assert(version_lt(os[i], os[j + 1]));
                        } else {
                            assert(ns[i] == os[i + 1] && ns[j] == os[j + 1]);
                            assert(version_lt(os[i + 1], os[j + 1]));
                        }
                    }
                    assert forall|x: Version| ns.contains(x) implies (os.contains(x) && x
                        != *version) by {
                        let i = choose|i: int| 0 <= i < ns.len() && ns[i] == x;
                        if i < k {
                            assert(os[i] == x);
                        } else {
                            assert(ns[i] == os[i + 1]);
                            assert(os[i + 1] == x);
                            if x == *version {
                                assert(version_lt(os[k as int], os[i + 1]));
                            }
                        }
                    }
                    assert forall|x: Version| os.contains(x) && x != *version implies ns.contains(
                        x,
                    ) by {
                        let i = choose|i: int| 0 <= i < os.len() && os[i] == x;
                        if i < k {
                            assert(ns[i] == x);
                        } else if i > k {
                            assert(ns[i - 1] == os[i]);
                            assert(ns[i - 1] == x);
                        } else {
                            assert(os[k as int] == *version);
                        }
                    }
                    assert(self.version_set() =~= old(self).version_set().remove(*version));
                }
                return;
            }
            k += 1;
        }
        proof {
            assert(!os.contains(*version));
            assert(self.version_set() =~= old(self).version_set().remove(*version));
        }
    }
}

impl Catalog {
    /// The catalog invariant: the node versions are strictly ascending.
    pub open spec fn well_formed(&self) -> bool {
        self.node.well_formed()
    }

    /// An empty catalog: nothing installed, nothing activated.
    pub fn empty() -> (c: Catalog)
        ensures
            c.well_formed(),
            c.node.activated == None::<Version>,
            c.node.versions@ =~= Seq::<Version>::empty(),
    {
        Catalog { node: NodeCatalog { activated: None, versions: Vec::new() } }
    }

    /// Records an installer result: a genuinely new installation enters the
    /// catalog and must be persisted; an already-installed version changes
    /// nothing and asks for no write.
    pub fn install_node(&mut self, installed: &Installed) -> (save: bool)
        requires
            old(self).well_formed(),
        ensures
            final(self).well_formed(),
            final(self).node.activated == old(self).node.activated,
            match *installed {
                Installed::Now(v) => save && final(self).node.version_set() =~= old(
                    self,
                ).node.version_set().insert(v),
                Installed::Already(_) => !save && *final(self) == *old(self),
            },
    {
        match installed {
            Installed::Now(v) => {
                self.node.insert_version(v);
                true
            },
            Installed::Already(_) => false,
        }
    }

    /// Activates a version: sets the activated entry and asks for a write of
    /// the catalog file only when the entry actually changed.
    pub fn activate_node(&mut self, version: &Version) -> (save: bool)
        ensures
            final(self).node.versions == old(self).node.versions,
            (final(self).node.activated, save) == spec_activate(
                old(self).node.activated,
                *version,
            ),
    {
        let same = match &self.node.activated {
            Some(a) => a.major == version.major && a.minor == version.minor && a.patch
                == version.patch,
            None => false,
        };
        self.node.activated = Some(*version);
        !same
    }

    /// Uninstalls a version. A version not in the catalog is a no-op, not an
    /// error. A cataloged version whose install directory is gone is a hard
    /// error (catalog/filesystem desync) and changes nothing. Otherwise the
    /// version leaves the catalog and the catalog must be persisted.
    pub fn uninstall_node(&mut self, version: &Version, install_dir_present: bool) -> (r: Result<
        bool,
        MissingInstallDirError,
    >)
        requires
            old(self).well_formed(),
        ensures
            final(self).well_formed(),
            final(self).node.activated == old(self).node.activated,
            match r {
                Ok(save) => {
                    &&& save == old(self).node.versions@.contains(*version)
                    &&& final(self).node.version_set() =~= old(self).node.version_set().remove(
                        *version,
                    )
                    &&& (!old(self).node.versions@.contains(*version) ==> *final(self) == *old(
                        self,
                    ))
                },
                Err(e) => {
                    &&& *final(self) == *old(self)
                    &&& e.version == *version
                    &&& old(self).node.versions@.contains(*version)
                    &&& !install_dir_present
                },
            },
            r is Ok <==> (!old(self).node.versions@.contains(*version) || install_dir_present),
    {
        if self.node.contains(version) {
            if !install_dir_present {
                return Err(MissingInstallDirError { version: *version });
            }
            self.node.remove_version(version);
            Ok(true)
        } else {
            proof {
                assert(self.node.version_set() =~= old(self).node.version_set().remove(*version));
            }
            Ok(false)
        }
    }
}

/// Law: uninstalling a version twice in a row produces the same catalog
/// state as uninstalling it once. The first removal takes the version out of
/// the installed set, so by the contract of `Catalog::uninstall_node` the
/// second call finds it absent, changes nothing, and asks for no write.
pub proof fn lemma_uninstall_idempotent(installed: Set<Version>, v: Version)
    ensures
        !installed.remove(v).contains(v),
        installed.remove(v).remove(v) =~= installed.remove(v),
{
}

/// Law: two activations that resolve to the same version persist the catalog
/// at most once. After the first activation of `v` the activated entry is
/// `Some(v)`, and by the contract of `Catalog::activate_node` the second
/// activation of `v` reports that no write is needed.
pub proof fn lemma_activate_persists_once(activated: Option<Version>, v: Version)
    ensures
        spec_activate(activated, v).0 == Some(v),
        !spec_activate(spec_activate(activated, v).0, v).1,
{
}

/// Law: installing an already-present version is a no-op on the installed
/// set.
pub proof fn lemma_install_present_noop(installed: Set<Version>, v: Version)
    requires
        installed.contains(v),
    ensures
        installed.insert(v) =~= installed,
{
}

} // verus!
