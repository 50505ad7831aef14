//! Semantic versions and version requirements: ordering, requirement
//! matching, and the textual form `major.minor.patch` with its parser.

use vstd::prelude::*;

use crate::text::{
    dec_rep, find_char, is_digit, lemma_dec_rep_val, lemma_find_char_absent,
    lemma_find_char_witness, parse_num_range, render_u64, spec_parse_num, str_chars,
};

verus! {

/// A semantic version, totally ordered by (major, minor, patch).
///
/// The model carries release triples only: version text bearing pre-release
/// or build metadata is not a version here, and the parser refuses it.
#[derive(Clone, Copy, PartialEq, Eq, Structural, Debug)]
pub struct Version {
    pub major: u64,
    pub minor: u64,
    pub patch: u64,
}

/// Strict order on versions: lexicographic on (major, minor, patch).
pub open spec fn version_lt(a: Version, b: Version) -> bool {
    a.major < b.major || (a.major == b.major && (a.minor < b.minor || (a.minor == b.minor
        && a.patch < b.patch)))
}

/// Non-strict order on versions.
pub open spec fn version_le(a: Version, b: Version) -> bool {
    version_lt(a, b) || a == b
}

/// The comparison operator of a version requirement.
#[derive(Clone, Copy, PartialEq, Eq, Structural, Debug)]
pub enum ReqOp {
    /// Matches exactly the named version.
    Exact,
    /// Matches versions strictly above the named one.
    Greater,
    /// Matches the named version and everything above it.
    GreaterEq,
    /// Matches versions strictly below the named one.
    Less,
    /// Matches the named version and everything below it.
    LessEq,
    /// Matches versions that only differ from the named one in the patch
    /// component, and are not below it.
    Tilde,
    /// Matches versions compatible with the named one: not below it, and
    /// equal in every component left of the leftmost nonzero component.
    Caret,
}

/// A semantic-version requirement: a predicate over versions given by one
/// comparison operator and one version (a single comparator, not a
/// conjunction of them).
#[derive(Clone, Copy, PartialEq, Eq, Structural, Debug)]
pub struct VersionReq {
    pub op: ReqOp,
    pub version: Version,
}

/// What it means for a version to satisfy a requirement.
pub open spec fn req_matches(r: VersionReq, v: Version) -> bool {
    match r.op {
        ReqOp::Exact => v == r.version,
        ReqOp::Greater => version_lt(r.version, v),
        ReqOp::GreaterEq => version_le(r.version, v),
        ReqOp::Less => version_lt(v, r.version),
        ReqOp::LessEq => version_le(v, r.version),
        ReqOp::Tilde => version_le(r.version, v) && v.major == r.version.major && v.minor
            == r.version.minor,
        ReqOp::Caret => version_le(r.version, v) && (if r.version.major > 0 {
            v.major == r.version.major
        } else if r.version.minor > 0 {
            v.major == 0 && v.minor == r.version.minor
        } else {
            v == r.version
        }),
    }
}

impl Version {
    /// Builds a version from its three components.
    pub fn new(major: u64, minor: u64, patch: u64) -> (v: Version)
        ensures
            v == (Version { major, minor, patch }),
    {
        Version { major, minor, patch }
    }

    /// Compares two versions in the (major, minor, patch) order.
    pub fn lt(&self, other: &Version) -> (r: bool)
        ensures
            r == version_lt(*self, *other),
    {
        self.major < other.major || (self.major == other.major && (self.minor < other.minor || (
        self.minor == other.minor && self.patch < other.patch)))
    }

    /// Non-strict comparison of two versions.
    pub fn le(&self, other: &Version) -> (r: bool)
        ensures
            r == version_le(*self, *other),
    {
        self.lt(other) || (self.major == other.major && self.minor == other.minor && self.patch
            == other.patch)
    }
}

impl VersionReq {
    /// Builds a requirement from an operator and a version.
    pub fn new(op: ReqOp, version: Version) -> (r: VersionReq)
        ensures
            r == (VersionReq { op, version }),
    {
        VersionReq { op, version }
    }

    /// Decides whether `v` satisfies this requirement.
    pub fn matches(&self, v: &Version) -> (r: bool)
        ensures
            r == req_matches(*self, *v),
    {
        match self.op {
            ReqOp::Exact => *v == self.version,
            ReqOp::Greater => self.version.lt(v),
            ReqOp::GreaterEq => self.version.le(v),
            ReqOp::Less => v.lt(&self.version),
            ReqOp::LessEq => v.le(&self.version),
            ReqOp::Tilde => self.version.le(v) && v.major == self.version.major && v.minor
                == self.version.minor,
            ReqOp::Caret => self.version.le(v) && (if self.version.major > 0 {
                v.major == self.version.major
            } else if self.version.minor > 0 {
                v.major == 0 && v.minor == self.version.minor
            } else {
                *v == self.version
            }),
        }
    }
}

/// The textual form of a version: `major.minor.patch` in decimal.
pub open spec fn spec_render_version(v: Version) -> Seq<char> {
    dec_rep(v.major as nat) + seq!['.'] + dec_rep(v.minor as nat) + seq!['.'] + dec_rep(
        v.patch as nat,
    )
}

/// The version denoted by `s`: three decimal numerals separated by dots,
/// split at the first two dots.
pub open spec fn spec_parse_version(s: Seq<char>) -> Option<Version> {
    match find_char(s, '.') {
        None => None,
        Some(i) => {
            let rest = s.subrange(i + 1, s.len() as int);
            match find_char(rest, '.') {
                None => None,
                Some(j) => {
                    let maj = spec_parse_num(s.subrange(0, i));
                    let min = spec_parse_num(rest.subrange(0, j));
                    let pat = spec_parse_num(rest.subrange(j + 1, rest.len() as int));
                    if maj is Some && min is Some && pat is Some {
                        Some(
                            Version {
                                major: maj->Some_0,
                                minor: min->Some_0,
                                patch: pat->Some_0,
                            },
                        )
                    } else {
                        None
                    }
                },
            }
        },
    }
}

/// Finds the first `c` in the character range `[from, to)` of `v`.
pub(crate) fn find_char_range(v: &Vec<char>, from: usize, to: usize, c: char) -> (r: Option<usize>)
    requires
        from <= to <= v.len(),
    ensures
        match r {
            Some(u) => from <= u < to && find_char(v@.subrange(from as int, to as int), c) == Some(
                u - from,
            ),
            None => find_char(v@.subrange(from as int, to as int), c) == None::<int>,
        },
{
    let ghost seg = v@.subrange(from as int, to as int);
    let mut i: usize = from;
    while i < to
        invariant
            from <= i <= to <= v.len(),
            seg == v@.subrange(from as int, to as int),
            forall|k: int| from <= k < i ==> v@[k] != c,
        decreases to - i,
    {
        if v[i] == c {
            proof {
                assert(seg[i - from] == c);
                assert(forall|k: int| 0 <= k < i - from ==> seg[k] == v@[k + from] && seg[k] != c);
                lemma_find_char_witness(seg, c, i - from);
            }
            return Some(i);
        }
        i += 1;
    }
    proof {
        assert(forall|k: int| 0 <= k < seg.len() ==> seg[k] == v@[k + from] && seg[k] != c);
        lemma_find_char_absent(seg, c);
    }
    None
}

/// Parses the character range `[from, to)` of `v` as a version.
pub fn parse_version_range(v: &Vec<char>, from: usize, to: usize) -> (r: Option<Version>)
    requires
        from <= to <= v.len(),
    ensures
        r == spec_parse_version(v@.subrange(from as int, to as int)),
{
    let ghost seg = v@.subrange(from as int, to as int);
    let i1 = match find_char_range(v, from, to, '.') {
        Some(u) => u,
        None => {
            return None;
        },
    };
    let ghost rest = seg.subrange(i1 - from + 1, seg.len() as int);
    proof {
        assert(rest =~= v@.subrange(i1 + 1, to as int));
    }
    let i2 = match find_char_range(v, i1 + 1, to, '.') {
        Some(u) => u,
        None => {
            return None;
        },
    };
    proof {
        assert(seg.subrange(0, i1 - from) =~= v@.subrange(from as int, i1 as int));
        assert(rest.subrange(0, i2 - (i1 + 1)) =~= v@.subrange(i1 + 1, i2 as int));
        assert(rest.subrange(i2 - (i1 + 1) + 1, rest.len() as int) =~= v@.subrange(
            i2 + 1,
            to as int,
        ));
    }
    let maj = parse_num_range(v, from, i1);
    let min = parse_num_range(v, i1 + 1, i2);
    let pat = parse_num_range(v, i2 + 1, to);
    match (maj, min, pat) {
        (Some(a), Some(b), Some(c)) => Some(Version { major: a, minor: b, patch: c }),
        _ => None,
    }
}

impl Version {
    /// Parses a version from its textual form.
    pub fn parse(s: &str) -> (r: Option<Version>)
        ensures
            r == spec_parse_version(s@),
    {
        let v = str_chars(s);
        let r = parse_version_range(&v, 0, v.len());
        proof {
            assert(v@.subrange(0, v@.len() as int) =~= s@);
        }
        r
    }

    /// Renders this version in its textual form.
    pub fn to_string(&self) -> (s: String)
        ensures
            s@ == spec_render_version(*self),
    {
        let mut s = render_u64(self.major);
        s.append(".");
        let m = render_u64(self.minor);
        s.append(m.as_str());
        s.append(".");
        let p = render_u64(self.patch);
        s.append(p.as_str());
        proof {
            reveal_strlit(".");
            assert("."@ =~= seq!['.']);
            assert(s@ =~= spec_render_version(*self));
        }
        s
    }
}

/// Law: rendering a version and parsing the result yields the version back.
pub proof fn lemma_version_text_roundtrip(v: Version)
    ensures
        spec_parse_version(spec_render_version(v)) == Some(v),
{
    let a = dec_rep(v.major as nat);
    let b = dec_rep(v.minor as nat);
    let c = dec_rep(v.patch as nat);
    lemma_dec_rep_val(v.major as nat);
    lemma_dec_rep_val(v.minor as nat);
    lemma_dec_rep_val(v.patch as nat);
    assert('.' as int == 46 && '0' as int == 48 && '9' as int == 57);
    let s = spec_render_version(v);
    assert(forall|k: int| 0 <= k < a.len() ==> is_digit(a[k]) && #[trigger] a[k] != '.');
    assert(forall|k: int| 0 <= k < b.len() ==> is_digit(b[k]) && #[trigger] b[k] != '.');
    assert(forall|k: int| 0 <= k < s.len() ==> s[k] == (a + seq!['.'] + b + seq!['.'] + c)[k]);
    assert(s[a.len() as int] == '.');
    assert(forall|k: int| 0 <= k < a.len() ==> s[k] == a[k]);
    lemma_find_char_witness(s, '.', a.len() as int);
    let rest = s.subrange(a.len() as int + 1, s.len() as int);
    assert(rest =~= b + seq!['.'] + c);
    assert(rest[b.len() as int] == '.');
    assert(forall|k: int| 0 <= k < b.len() ==> rest[k] == b[k]);
    lemma_find_char_witness(rest, '.', b.len() as int);
    assert(s.subrange(0, a.len() as int) =~= a);
    assert(rest.subrange(0, b.len() as int) =~= b);
    assert(rest.subrange(b.len() as int + 1, rest.len() as int) =~= c);
    assert(spec_parse_num(a) == Some(v.major));
    assert(spec_parse_num(b) == Some(v.minor));
    assert(spec_parse_num(c) == Some(v.patch));
}

/// The order on versions is total: any two versions are related one way or
/// the other, and both ways only when they are equal.
pub proof fn lemma_version_order_total(a: Version, b: Version)
    ensures
        version_le(a, b) || version_le(b, a),
        version_le(a, b) && version_le(b, a) ==> a == b,
        version_lt(a, b) ==> !version_le(b, a),
{
}

} // verus!
