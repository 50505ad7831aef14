//! The remote version index: the catalog of versions the upstream distributor
//! publishes, and resolution of a requirement against it.

use vstd::prelude::*;

use crate::errors::NoNodeVersionFoundError;
use crate::installer::Installer;
use crate::resolve::{best_match, sorted_strict};
use crate::version::{
    spec_parse_version, parse_version_range, version_lt, Version, VersionReq,
};
use crate::text::str_chars;

verus! {

/// The set of available files on the public server for a given version.
///
/// Resolution does not consult this set: a candidate version is selected even
/// when no archive for the host platform is listed — a known gap of this
/// engine, kept as designed.
#[derive(Clone, Debug)]
pub struct VersionData {
    pub files: Vec<String>,
}

/// The index of the public server: versions ascending, keys unique.
#[derive(Debug)]
pub struct Index {
    pub entries: Vec<(Version, VersionData)>,
}

/// An entry of the raw index whose version field could not be read.
#[derive(Clone, Debug)]
pub struct InvalidIndexEntryError {
    /// The version text of the offending entry.
    pub entry: String,
}

/// The version denoted by an index entry: entries may carry a leading `v`.
pub open spec fn spec_parse_version_lenient(s: Seq<char>) -> Option<Version> {
    if s.len() > 0 && s[0] == 'v' {
        spec_parse_version(s.drop_first())
    } else {
        spec_parse_version(s)
    }
}

/// Parses a version, accepting a leading `v`.
pub fn parse_version_lenient(s: &str) -> (r: Option<Version>)
    ensures
        r == spec_parse_version_lenient(s@),
{
    let v = str_chars(s);
    let n = v.len();
    if n > 0 && v[0] == 'v' {
        let r = parse_version_range(&v, 1, n);
        proof {
            assert(v@.subrange(1, n as int) =~= s@.drop_first());
        }
        r
    } else {
        let r = parse_version_range(&v, 0, n);
        proof {
            assert(v@.subrange(0, n as int) =~= s@);
        }
        r
    }
}

/// The version keys of an entry sequence, in order.
pub open spec fn entry_keys(es: Seq<(Version, VersionData)>) -> Seq<Version> {
    es.map_values(|e: (Version, VersionData)| e.0)
}

impl Index {
    /// The keys of this index, in order.
    pub open spec fn keys(&self) -> Seq<Version> {
        entry_keys(self.entries@)
    }

    /// The index invariant: version keys strictly ascending.
    pub open spec fn well_formed(&self) -> bool {
        sorted_strict(self.keys())
    }

    /// An index with no entries.
    pub fn empty() -> (ix: Index)
        ensures
            ix.well_formed(),
            ix.keys() =~= Seq::<Version>::empty(),
    {
        let ix = Index { entries: Vec::new() };
        proof {
            assert(ix.keys() =~= Seq::<Version>::empty());
        }
        ix
    }

    /// Adds an entry, keeping the keys strictly ascending; a version already
    /// present leaves the index unchanged.
    fn insert_entry(&mut self, version: Version, data: VersionData)
        requires
            old(self).well_formed(),
        ensures
            final(self).well_formed(),
            forall|x: Version|
                final(self).keys().contains(x) <==> (old(self).keys().contains(x) || x == version),
    {
        let ghost ks = self.keys();
        let n = self.entries.len();
        let mut k: usize = 0;
        loop
            invariant
                *self == *old(self),
                n == self.entries.len(),
                ks == self.keys(),
                sorted_strict(ks),
                k <= n,
                forall|j: int| 0 <= j < k ==> version_lt(#[trigger] ks[j], version),
            ensures
                k <= n,
                forall|j: int| 0 <= j < k ==> version_lt(#[trigger] ks[j], version),
                k < n ==> (version_lt(version, ks[k as int]) || ks[k as int] == version),
            decreases n - k,
        {
            if k >= n {
                break;
            }
            let w = self.entries[k].0;
            proof {
                assert(ks[k as int] == w);
            }
            if w == version {
                break;
            }
            if version.lt(&w) {
                break;
            }
            k += 1;
        }
        if k < n {
            let w = self.entries[k].0;
            if w == version {
                proof {
                    assert(ks.contains(version));
                    assert(forall|x: Version|
                        self.keys().contains(x) <==> (old(self).keys().contains(x) || x
                            == version));
                }
                return;
            }
        }
        proof {
            assert(k < n ==> version_lt(version, ks[k as int]));
            assert forall|j: int| 0 <= j < ks.len() implies ks[j] != version by {
                if j > k {
                    assert(version_lt(ks[k as int], ks[j]));
                }
            }
        }
        let ghost oes = self.entries@;
        self.entries.insert(k, (version, data));
        proof {
            oes.insert_ensures(k as int, (version, data));
            let ns = self.keys();
            assert(self.entries@ == oes.insert(k as int, (version, data)));
            assert(ns.len() == ks.len() + 1);
            assert(forall|i: int| 0 <= i < k ==> ns[i] == ks[i]);
            assert(ns[k as int] == version);
            assert(forall|i: int| k < i < ns.len() ==> ns[i] == ks[i - 1]);
            assert forall|i: int, j: int| 0 <= i < j < ns.len() implies version_lt(
                ns[i],
                ns[j],
            ) by {
                if j < k {
                    assert(version_lt(ks[i], ks[j]));
                } else if i < k && j == k {
                    assert(version_lt(ks[i], version));
                } else if i < k && j > k {
                    assert(version_lt(ks[i], ks[j - 1]));
                } else if i == k && j > k {
                    assert(version_lt(version, ks[k as int]) || k == ks.len());
                    if j > k + 1 {
                        assert(version_lt(ks[k as int], ks[j - 1]));
                    }
                } else {
                    assert(version_lt(ks[i - 1], ks[j - 1]));
                }
            }
            assert forall|x: Version| ns.contains(x) implies (ks.contains(x) || x == version) by {
                let i = choose|i: int| 0 <= i < ns.len() && ns[i] == x;
                if i < k {
                    assert(ks[i] == x);
                } else if i > k {
                    assert(ks[i - 1] == x);
                }
            }
            assert forall|x: Version| ks.contains(x) implies ns.contains(x) by {
                let i = choose|i: int| 0 <= i < ks.len() && ks[i] == x;
                if i < k {
                    assert(ns[i] == x);
                } else {
                    assert(ns[i + 1] == x);
                }
            }
            assert(ns.contains(version));
        }
    }

    /// Builds an index from raw entries as fetched from the remote server:
    /// parses each entry's version text and orders the keys. Fails on the
    /// first entry whose version text is not a version; as the version model
    /// carries release triples only, an entry bearing pre-release or build
    /// metadata is refused too.
    pub fn from_entries(raw: Vec<(String, VersionData)>) -> (r: Result<
        Index,
        InvalidIndexEntryError,
    >)
        ensures
            match r {
                Ok(ix) => {
                    &&& ix.well_formed()
                    &&& (forall|v: Version|
                        ix.keys().contains(v) <==> exists|i: int|
                            0 <= i < raw@.len() && #[trigger] spec_parse_version_lenient(
                                raw@[i].0@,
                            ) == Some(v))
                    &&& (forall|i: int|
                        0 <= i < raw@.len() ==> #[trigger] spec_parse_version_lenient(raw@[i].0@)
                            is Some)
                },
                Err(e) => exists|i: int|
                    0 <= i < raw@.len() && #[trigger] spec_parse_version_lenient(raw@[i].0@)
                        is None && e.entry@ == raw@[i].0@ && (forall|j: int|
                        0 <= j < i ==> #[trigger] spec_parse_version_lenient(raw@[j].0@) is Some),
            },
    {
        let mut ix = Index::empty();
        let n = raw.len();
        let mut idx: usize = 0;
        while idx < n
            invariant
                n == raw@.len(),
                idx <= n,
                ix.well_formed(),
                forall|v: Version|
                    ix.keys().contains(v) <==> exists|i: int|
                        0 <= i < idx && #[trigger] spec_parse_version_lenient(raw@[i].0@) == Some(
                            v,
                        ),
                forall|i: int|
                    0 <= i < idx ==> #[trigger] spec_parse_version_lenient(raw@[i].0@) is Some,
            decreases n - idx,
        {
            let vstr = &raw[idx].0;
            match parse_version_lenient(vstr.as_str()) {
                Some(v) => {
                    let ghost pre = ix.keys();
                    ix.insert_entry(v, raw[idx].1.clone());
                    proof {
                        assert forall|x: Version| ix.keys().contains(x) implies exists|i: int|
                            0 <= i < idx + 1 && #[trigger] spec_parse_version_lenient(raw@[i].0@)
                                == Some(x) by {
                            if pre.contains(x) {
                                let i = choose|i: int|
                                    0 <= i < idx && #[trigger] spec_parse_version_lenient(
                                        raw@[i].0@,
                                    ) == Some(x);
                                assert(0 <= i < idx + 1 && spec_parse_version_lenient(raw@[i].0@)
                                    == Some(x));
                            } else {
                                assert(x == v);
                                assert(spec_parse_version_lenient(raw@[idx as int].0@) == Some(x));
                            }
                        }
                        assert forall|x: Version|
                            (exists|i: int|
                                0 <= i < idx + 1 && #[trigger] spec_parse_version_lenient(
                                    raw@[i].0@,
                                ) == Some(x)) implies ix.keys().contains(x) by {
                            let i = choose|i: int|
                                0 <= i < idx + 1 && #[trigger] spec_parse_version_lenient(
                                    raw@[i].0@,
                                ) == Some(x);
                            if i < idx {
                                assert(pre.contains(x));
                            } else {
                                assert(x == v);
                            }
                        }
                    }
                },
                None => {
                    let e = InvalidIndexEntryError { entry: raw[idx].0.clone() };
                    proof {
                        assert(0 <= idx < raw@.len() && spec_parse_version_lenient(
                            raw@[idx as int].0@,
                        ) is None && e.entry@ == raw@[idx as int].0@ && (forall|j: int|
                            0 <= j < idx ==> #[trigger] spec_parse_version_lenient(raw@[j].0@)
                                is Some));
                    }
                    return Err(e);
                },
            }
            idx += 1;
        }
        Ok(ix)
    }

    /// Resolves a requirement against the index: the highest published
    /// version satisfying it, handed out as a public-registry installer;
    /// fails with `NoNodeVersionFoundError` exactly when no published version
    /// satisfies the requirement.
    pub fn resolve_public(&self, matching: &VersionReq) -> (r: Result<
        Installer,
        NoNodeVersionFoundError,
    >)
        ensures
            match r {
                Ok(inst) => best_match(self.keys(), *matching) == Some(inst.version)
                    && inst.origin is PublicRegistry,
                Err(e) => best_match(self.keys(), *matching) == None::<Version> && e.matching
                    == *matching,
            },
    {
        let mut i: usize = self.entries.len();
        proof {
            assert(self.keys().subrange(0, i as int) =~= self.keys());
        }
        while i > 0
            invariant
                i <= self.entries.len(),
                self.keys().len() == self.entries@.len(),
                best_match(self.keys(), *matching) == best_match(
                    self.keys().subrange(0, i as int),
                    *matching,
                ),
            decreases i,
        {
            i -= 1;
            let v = self.entries[i].0;
            let ghost sub = self.keys().subrange(0, i as int + 1);
            proof {
                assert(self.keys()[i as int] == v);
                assert(sub.last() == v);
                assert(sub.drop_last() =~= self.keys().subrange(0, i as int));
            }
            if matching.matches(&v) {
                return Ok(Installer::public(v));
            }
        }
        proof {
            assert(self.keys().subrange(0, 0) =~= Seq::<Version>::empty());
        }
        Err(NoNodeVersionFoundError { matching: *matching })
    }
}

} // verus!
