//! The persisted text form of the catalog: a small structured-text document
//! with the node table, its optional `activated` entry and its `versions`
//! list. Rendering and parsing are exact inverses, and parsing accepts the
//! versions in any order, normalizing them into the catalog's ascending
//! order.

use vstd::prelude::*;

use crate::catalog::Catalog;
use crate::text::{find_char, is_digit, lemma_dec_rep_val, lemma_find_char_witness, starts_with_at,
    str_chars, dec_rep};
use crate::version::{
    lemma_version_text_roundtrip, parse_version_range, spec_parse_version, spec_render_version,
    Version, find_char_range,
};

verus! {

/// The text could not be read as a catalog document.
#[derive(Clone, Copy, Debug, PartialEq, Eq, Structural)]
pub struct CatalogParseError;

/// The version list lines of the document, one version per line.
pub open spec fn render_version_lines(vs: Seq<Version>) -> Seq<char>
    decreases vs.len(),
{
    if vs.len() == 0 {
        Seq::empty()
    } else {
        "    \""@ + spec_render_version(vs[0]) + "\",\n"@ + render_version_lines(vs.drop_first())
    }
}

/// The whole catalog document.
pub open spec fn render_catalog_text(activated: Option<Version>, vs: Seq<Version>) -> Seq<char> {
    "[node]\n"@ + (match activated {
        Some(v) => "activated = \""@ + spec_render_version(v) + "\"\n"@,
        None => Seq::empty(),
    }) + "versions = [\n"@ + render_version_lines(vs) + "]\n"@
}

/// Parses the version list lines up to and including the closing bracket.
pub open spec fn parse_version_lines(s: Seq<char>) -> Option<Seq<Version>>
    decreases s.len(),
{
    if s.len() == 2 && s[0] == ']' && s[1] == '\n' {
        Some(Seq::empty())
    } else if s.len() >= 5 && s.subrange(0, 5) == "    \""@ {
        let rest = s.subrange(5, s.len() as int);
        match find_char(rest, '"') {
            Some(j) => if 0 <= j && rest.len() >= j + 3 && rest[j + 1] == ',' && rest[j + 2]
                == '\n' {
                match spec_parse_version(rest.subrange(0, j)) {
                    Some(v) => match parse_version_lines(rest.subrange(j + 3, rest.len() as int)) {
                        Some(tail) => Some(seq![v] + tail),
                        None => None,
                    },
                    None => None,
                }
            } else {
                None
            },
            None => None,
        }
    } else {
        None
    }
}

/// Parses the `versions` list together with its opening line.
pub open spec fn parse_versions_part(s: Seq<char>) -> Option<Seq<Version>> {
    if s.len() >= 13 && s.subrange(0, 13) == "versions = [\n"@ {
        parse_version_lines(s.subrange(13, s.len() as int))
    } else {
        None
    }
}

/// Parses a whole catalog document into its `(activated, versions)` pair,
/// versions in document order.
pub open spec fn parse_catalog_text(s: Seq<char>) -> Option<(Option<Version>, Seq<Version>)> {
    if s.len() >= 7 && s.subrange(0, 7) == "[node]\n"@ {
        let rest = s.subrange(7, s.len() as int);
        if rest.len() >= 13 && rest.subrange(0, 13) == "activated = \""@ {
            let r2 = rest.subrange(13, rest.len() as int);
            match find_char(r2, '"') {
                Some(j) => if r2.len() >= j + 2 && r2[j + 1] == '\n' {
                    match spec_parse_version(r2.subrange(0, j)) {
                        Some(v) => match parse_versions_part(r2.subrange(j + 2, r2.len() as int)) {
                            Some(vs) => Some((Some(v), vs)),
                            None => None,
                        },
                        None => None,
                    }
                } else {
                    None
                },
                None => None,
            }
        } else {
            match parse_versions_part(rest) {
                Some(vs) => Some((None, vs)),
                None => None,
            }
        }
    } else {
        None
    }
}

/// A rendered version is made of digits and dots only, and is at least five
/// characters long.
proof fn lemma_render_version_chars(v: Version)
    ensures
        spec_render_version(v).len() >= 5,
        forall|k: int|
            0 <= k < spec_render_version(v).len() ==> (is_digit(
                #[trigger] spec_render_version(v)[k],
            ) || spec_render_version(v)[k] == '.'),
{
    let a = dec_rep(v.major as nat);
    let b = dec_rep(v.minor as nat);
    let c = dec_rep(v.patch as nat);
    lemma_dec_rep_val(v.major as nat);
    lemma_dec_rep_val(v.minor as nat);
    lemma_dec_rep_val(v.patch as nat);
    let rv = spec_render_version(v);
    assert forall|k: int| 0 <= k < rv.len() implies (is_digit(#[trigger] rv[k]) || rv[k]
        == '.') by {
        if k < a.len() {
            assert(rv[k] == a[k]);
            assert(is_digit(a[k]));
        } else if k == a.len() {
            assert(rv[k] == '.');
        } else if k < a.len() + 1 + b.len() {
            assert(rv[k] == b[k - a.len() - 1]);
            assert(is_digit(b[k - a.len() - 1]));
        } else if k == a.len() + 1 + b.len() {
            assert(rv[k] == '.');
        } else {
            assert(rv[k] == c[k - a.len() - b.len() - 2]);
            assert(is_digit(c[k - a.len() - b.len() - 2]));
        }
    }
}

/// Law, version lines: parsing the rendered list lines (closed by the
/// bracket line) yields the versions back, in order.
pub proof fn lemma_version_lines_roundtrip(vs: Seq<Version>)
    ensures
        parse_version_lines(render_version_lines(vs) + "]\n"@) == Some(vs),
    decreases vs.len(),
{
    reveal_strlit("]\n");
    reveal_strlit("    \"");
    reveal_strlit("\",\n");
    assert('"' as int == 34 && ',' as int == 44 && ']' as int == 93 && '\n' as int == 10 && '.'
        as int == 46 && '0' as int == 48 && '9' as int == 57);
    let close = "]\n"@;
    let s = render_version_lines(vs) + close;
    if vs.len() == 0 {
        assert(s =~= close);
        assert(s.len() == 2 && s[0] == ']' && s[1] == '\n');
        assert(Some(Seq::<Version>::empty()) == Some(vs)) by {
            assert(vs =~= Seq::<Version>::empty());
        }
    } else {
        lemma_version_lines_roundtrip(vs.drop_first());
        let v0 = vs[0];
        let rv = spec_render_version(v0);
        lemma_render_version_chars(v0);
        let tail = render_version_lines(vs.drop_first()) + close;
        assert(s =~= "    \""@ + rv + "\",\n"@ + tail);
        assert(s.len() == 5 + rv.len() + 3 + tail.len());
        assert(s.len() >= 13);
        assert(s.subrange(0, 5) =~= "    \""@);
        let rest = s.subrange(5, s.len() as int);
        assert(rest =~= rv + "\",\n"@ + tail);
        assert(rest[rv.len() as int] == '"');
        assert forall|k: int| 0 <= k < rv.len() implies rest[k] != '"' by {
            assert(rest[k] == rv[k]);
        }
        lemma_find_char_witness(rest, '"', rv.len() as int);
        let j = rv.len() as int;
        assert(rest.len() >= j + 3);
        assert(rest[j + 1] == ',');
        assert(rest[j + 2] == '\n');
        assert(rest.subrange(0, j) =~= rv);
        lemma_version_text_roundtrip(v0);
        assert(spec_parse_version(rest.subrange(0, j)) == Some(v0));
        assert(rest.subrange(j + 3, rest.len() as int) =~= tail);
        assert(parse_version_lines(s) == Some(seq![v0] + vs.drop_first()));
        assert(seq![v0] + vs.drop_first() =~= vs);
    }
}

/// Law: parsing a rendered catalog document yields the same activated entry
/// and the same versions, in the same order.
#[verifier::rlimit(60)]
pub proof fn lemma_catalog_text_roundtrip(activated: Option<Version>, vs: Seq<Version>)
    ensures
        parse_catalog_text(render_catalog_text(activated, vs)) == Some((activated, vs)),
{
    reveal_strlit("[node]\n");
    reveal_strlit("activated = \"");
    reveal_strlit("versions = [\n");
    reveal_strlit("\"\n");
    assert('"' as int == 34 && 'a' as int == 97 && 'v' as int == 118 && '\n' as int == 10 && '.'
        as int == 46 && '0' as int == 48 && '9' as int == 57);
    let s = render_catalog_text(activated, vs);
    let vo = "versions = [\n"@;
    let rl = render_version_lines(vs);
    let close = "]\n"@;
    lemma_version_lines_roundtrip(vs);
    match activated {
        Some(v) => {
            let rv = spec_render_version(v);
            lemma_render_version_chars(v);
            assert(s =~= "[node]\n"@ + ("activated = \""@ + rv + "\"\n"@) + vo + rl + close);
            assert(s.subrange(0, 7) =~= "[node]\n"@);
            let rest = s.subrange(7, s.len() as int);
            assert(rest =~= "activated = \""@ + rv + "\"\n"@ + vo + rl + close);
            assert(rest.subrange(0, 13) =~= "activated = \""@);
            let r2 = rest.subrange(13, rest.len() as int);
            assert(r2 =~= rv + "\"\n"@ + vo + rl + close);
            assert(r2[rv.len() as int] == '"');
            assert forall|k: int| 0 <= k < rv.len() implies r2[k] != '"' by {
                assert(r2[k] == rv[k]);
            }
            lemma_find_char_witness(r2, '"', rv.len() as int);
            let j = rv.len() as int;
            assert(r2[j + 1] == '\n');
            assert(r2.subrange(0, j) =~= rv);
            lemma_version_text_roundtrip(v);
            let vp = r2.subrange(j + 2, r2.len() as int);
            assert(vp =~= vo + rl + close);
            assert(vp.subrange(0, 13) =~= vo);
            assert(vp.subrange(13, vp.len() as int) =~= rl + close);
            assert(parse_versions_part(vp) == Some(vs));
        },
        None => {
            assert(s =~= "[node]\n"@ + vo + rl + close);
            assert(s.subrange(0, 7) =~= "[node]\n"@);
            let rest = s.subrange(7, s.len() as int);
            assert(rest =~= vo + rl + close);
            assert(rest.len() >= 13);
            if rest.subrange(0, 13) == "activated = \""@ {
                assert(rest.subrange(0, 13)[0] == rest[0]);
                assert(rest[0] == 'v');
                assert(false);
            }
            assert(rest.subrange(0, 13) =~= vo);
            assert(rest.subrange(13, rest.len() as int) =~= rl + close);
            assert(parse_versions_part(rest) == Some(vs));
        },
    }
}

/// Law: a strictly ascending sequence is determined by its members. Together
/// with `lemma_catalog_text_roundtrip` and the contracts of
/// `Catalog::to_string` and `Catalog::from_str`, this gives the full round
/// trip: re-parsing a well-formed catalog's rendered document yields a
/// catalog with the same activated entry and the same versions vector.
pub proof fn lemma_sorted_versions_unique(a: Seq<Version>, b: Seq<Version>)
    requires
        crate::resolve::sorted_strict(a),
        crate::resolve::sorted_strict(b),
        forall|x: Version| a.contains(x) <==> b.contains(x),
    ensures
        a == b,
    decreases a.len(),
{
    if a.len() == 0 {
        if b.len() > 0 {
            assert(b.contains(b[0]));
            assert(a.contains(b[0]));
        }
        assert(a =~= b);
    } else if b.len() == 0 {
        assert(a.contains(a[0]));
        assert(b.contains(a[0]));
    } else {
        let la = a.last();
        let lb = b.last();
        assert(a.contains(la));
        assert(b.contains(lb));
        assert(b.contains(la));
        assert(a.contains(lb));
        let ia = choose|i: int| 0 <= i < a.len() && a[i] == lb;
        let ib = choose|i: int| 0 <= i < b.len() && b[i] == la;
        if ia < a.len() - 1 {
            assert(crate::version::version_lt(a[ia], la));
        }
        if ib < b.len() - 1 {
            assert(crate::version::version_lt(b[ib], lb));
        }
        assert(la == lb);
        assert forall|x: Version| a.drop_last().contains(x) implies b.drop_last().contains(x) by {
            let i = choose|i: int| 0 <= i < a.len() - 1 && a.drop_last()[i] == x;
            assert(a[i] == x);
            assert(crate::version::version_lt(x, la));
            assert(b.contains(x));
            let j = choose|j: int| 0 <= j < b.len() && b[j] == x;
            if j == b.len() - 1 {
                assert(x == lb);
            } else {
                assert(b.drop_last()[j] == x);
            }
        }
        assert forall|x: Version| b.drop_last().contains(x) implies a.drop_last().contains(x) by {
            let i = choose|i: int| 0 <= i < b.len() - 1 && b.drop_last()[i] == x;
            assert(b[i] == x);
            assert(crate::version::version_lt(x, lb));
            assert(a.contains(x));
            let j = choose|j: int| 0 <= j < a.len() && a[j] == x;
            if j == a.len() - 1 {
                assert(x == la);
            } else {
                assert(a.drop_last()[j] == x);
            }
        }
        assert(crate::resolve::sorted_strict(a.drop_last())) by {
            assert(forall|i: int, j: int|
                0 <= i < j < a.len() - 1 ==> crate::version::version_lt(
                    #[trigger] a.drop_last()[i],
                    #[trigger] a.drop_last()[j],
                ));
        }
        assert(crate::resolve::sorted_strict(b.drop_last())) by {
            assert(forall|i: int, j: int|
                0 <= i < j < b.len() - 1 ==> crate::version::version_lt(
                    #[trigger] b.drop_last()[i],
                    #[trigger] b.drop_last()[j],
                ));
        }
        lemma_sorted_versions_unique(a.drop_last(), b.drop_last());
        assert(a =~= b) by {
            assert(forall|i: int| 0 <= i < a.len() - 1 ==> a[i] == a.drop_last()[i]);
            assert(forall|i: int| 0 <= i < b.len() - 1 ==> b[i] == b.drop_last()[i]);
        }
    }
}

/// Parses the version list lines beginning at position `i` of `v`.
fn parse_version_lines_at(v: &Vec<char>, i: usize) -> (r: Option<Vec<Version>>)
    requires
        i <= v.len(),
    ensures
        match r {
            Some(vers) => parse_version_lines(v@.subrange(i as int, v@.len() as int)) == Some(
                vers@,
            ),
            None => parse_version_lines(v@.subrange(i as int, v@.len() as int)) is None,
        },
    decreases v.len() - i,
{
    proof {
        reveal_strlit("    \"");
    }
    let n = v.len();
    let ghost seg = v@.subrange(i as int, n as int);
    if n - i == 2 && v[i] == ']' && v[i + 1] == '\n' {
        proof {
            assert(seg.len() == 2 && seg[0] == ']' && seg[1] == '\n');
        }
        return Some(Vec::new());
    }
    if !starts_with_at(v, i, "    \"") {
        proof {
            if seg.len() >= 5 && seg.subrange(0, 5) == "    \""@ {
                assert(v@.subrange(i as int, i as int + 5) =~= seg.subrange(0, 5));
                assert(false);
            }
        }
        return None;
    }
    proof {
        assert(seg.subrange(0, 5) =~= v@.subrange(i as int, i as int + 5));
        assert(seg.len() >= 5);
        assert(!(seg.len() == 2));
    }
    let rest_start = i + 5;
    let ghost rest = seg.subrange(5, seg.len() as int);
    proof {
        assert(rest =~= v@.subrange(rest_start as int, n as int));
    }
    let u = match find_char_range(v, rest_start, n, '"') {
        Some(u) => u,
        None => {
            return None;
        },
    };
    let ghost j = u - rest_start;
    if !(n - u >= 3 && v[u + 1] == ',' && v[u + 2] == '\n') {
        proof {
            assert(rest.len() == n - rest_start);
            if rest.len() >= j + 3 {
                assert(rest[j + 1] == v@[u + 1]);
                assert(rest[j + 2] == v@[u + 2]);
            }
        }
        return None;
    }
    proof {
        assert(rest.len() >= j + 3 && rest[j + 1] == ',' && rest[j + 2] == '\n');
        assert(rest.subrange(0, j) =~= v@.subrange(rest_start as int, u as int));
    }
    let ver = match parse_version_range(v, rest_start, u) {
        Some(ver) => ver,
        None => {
            return None;
        },
    };
    proof {
        assert(rest.subrange(j + 3, rest.len() as int) =~= v@.subrange(u + 3, n as int));
    }
    match parse_version_lines_at(v, u + 3) {
        Some(mut tail) => {
            let ghost pre = tail@;
            proof {
                pre.insert_ensures(0, ver);
            }
            tail.insert(0, ver);
            proof {
                assert(tail@ =~= seq![ver] + pre);
            }
            Some(tail)
        },
        None => None,
    }
}

impl Catalog {
    /// Renders the catalog in its persisted text form.
    pub fn to_string(&self) -> (s: String)
        ensures
            s@ == render_catalog_text(self.node.activated, self.node.versions@),
    {
        let ghost act = self.node.activated;
        let ghost vv = self.node.versions@;
        let mut s = String::new();
        s.append("[node]\n");
        match &self.node.activated {
            Some(v) => {
                s.append("activated = \"");
                let vt = v.to_string();
                s.append(vt.as_str());
                s.append("\"\n");
            },
            None => {},
        }
        s.append("versions = [\n");
        proof {
            assert(vv.skip(0) =~= vv);
            assert(render_catalog_text(act, vv) =~= s@ + render_version_lines(vv.skip(0))
                + "]\n"@);
        }
        let n = self.node.versions.len();
        let mut i: usize = 0;
        while i < n
            invariant
                n == self.node.versions.len(),
                act == self.node.activated,
                vv == self.node.versions@,
                i <= n,
                render_catalog_text(act, vv) == s@ + render_version_lines(vv.skip(i as int))
                    + "]\n"@,
            decreases n - i,
        {
            let ghost pre = s@;
            s.append("    \"");
            let vt = self.node.versions[i].to_string();
            s.append(vt.as_str());
            s.append("\",\n");
            proof {
                let sk = vv.skip(i as int);
                assert(sk.len() > 0);
                assert(sk[0] == vv[i as int]);
                assert(sk.drop_first() =~= vv.skip(i as int + 1));
                assert(vt@ == spec_render_version(vv[i as int]));
                assert(pre + render_version_lines(sk) + "]\n"@ =~= s@ + render_version_lines(
                    vv.skip(i as int + 1),
                ) + "]\n"@);
            }
            i += 1;
        }
        let ghost body = s@;
        s.append("]\n");
        proof {
            assert(vv.skip(n as int) =~= Seq::<Version>::empty());
            assert(render_version_lines(vv.skip(n as int)) =~= Seq::<char>::empty());
            assert(body + render_version_lines(vv.skip(n as int)) + "]\n"@ =~= body + "]\n"@);
            assert(s@ == render_catalog_text(act, vv));
        }
        s
    }

    /// Parses a catalog from its persisted text form. The versions may stand
    /// in any order in the document; the catalog normalizes them into
    /// ascending order, duplicates collapsed.
    pub fn from_str(s: &str) -> (r: Result<Catalog, CatalogParseError>)
        ensures
            match r {
                Ok(c) => {
                    &&& c.well_formed()
                    &&& (parse_catalog_text(s@) matches Some(p) && c.node.activated == p.0 && (
                    forall|v: Version| c.node.versions@.contains(v) <==> p.1.contains(v)))
                },
                Err(_) => parse_catalog_text(s@) is None,
            },
    {
        proof {
            reveal_strlit("[node]\n");
            reveal_strlit("activated = \"");
            reveal_strlit("versions = [\n");
        }
        let v = str_chars(s);
        let n = v.len();
        if !starts_with_at(&v, 0, "[node]\n") {
            proof {
                if s@.len() >= 7 && s@.subrange(0, 7) == "[node]\n"@ {
                    assert(v@.subrange(0, 7) =~= s@.subrange(0, 7));
                    assert(false);
                }
            }
            return Err(CatalogParseError);
        }
        proof {
            assert(s@.subrange(0, 7) =~= v@.subrange(0, 7));
        }
        let ghost rest = s@.subrange(7, s@.len() as int);
        let activated: Option<Version>;
        let vers_pos: usize;
        if starts_with_at(&v, 7, "activated = \"") {
            proof {
                assert(rest.subrange(0, 13) =~= v@.subrange(7, 20));
                assert(rest.len() >= 13);
            }
            let vstart: usize = 20;
            let ghost r2 = rest.subrange(13, rest.len() as int);
            proof {
                assert(r2 =~= v@.subrange(20, n as int));
            }
            let u = match find_char_range(&v, vstart, n, '"') {
                Some(u) => u,
                None => {
                    return Err(CatalogParseError);
                },
            };
            let ghost j = u - vstart;
            if !(n - u >= 2 && v[u + 1] == '\n') {
                proof {
                    assert(r2.len() == n - 20);
                    if r2.len() >= j + 2 {
                        assert(r2[j + 1] == v@[u + 1]);
                    }
                }
                return Err(CatalogParseError);
            }
            proof {
                assert(r2.len() >= j + 2 && r2[j + 1] == '\n');
                assert(r2.subrange(0, j) =~= v@.subrange(20, u as int));
            }
            let ver = match parse_version_range(&v, vstart, u) {
                Some(ver) => ver,
                None => {
                    return Err(CatalogParseError);
                },
            };
            proof {
                assert(r2.subrange(j + 2, r2.len() as int) =~= v@.subrange(u + 2, n as int));
            }
            activated = Some(ver);
            vers_pos = u + 2;
        } else {
            proof {
                if rest.len() >= 13 && rest.subrange(0, 13) == "activated = \""@ {
                    assert(v@.subrange(7, 20) =~= rest.subrange(0, 13));
                    assert(false);
                }
            }
            activated = None;
            vers_pos = 7;
        }
        let ghost vpart = s@.subrange(vers_pos as int, s@.len() as int);
        if !starts_with_at(&v, vers_pos, "versions = [\n") {
            proof {
                if vpart.len() >= 13 && vpart.subrange(0, 13) == "versions = [\n"@ {
                    assert(v@.subrange(vers_pos as int, vers_pos as int + 13) =~= vpart.subrange(
                        0,
                        13,
                    ));
                    assert(false);
                }
            }
            return Err(CatalogParseError);
        }
        proof {
            assert(vpart.subrange(0, 13) =~= v@.subrange(vers_pos as int, vers_pos as int + 13));
            assert(vpart.len() >= 13);
            assert(vpart.subrange(13, vpart.len() as int) =~= v@.subrange(
                vers_pos as int + 13,
                n as int,
            ));
        }
        let vers = match parse_version_lines_at(&v, vers_pos + 13) {
            Some(vers) => vers,
            None => {
                return Err(CatalogParseError);
            },
        };
        let mut cat = Catalog::empty();
        cat.node.activated = activated;
        let m = vers.len();
        let mut idx: usize = 0;
        while idx < m
            invariant
                m == vers.len(),
                idx <= m,
                cat.well_formed(),
                cat.node.activated == activated,
                forall|x: Version|
                    cat.node.versions@.contains(x) <==> vers@.subrange(0, idx as int).contains(x),
            decreases m - idx,
        {
            let ghost pre = cat.node.versions@;
            cat.node.insert_version(&vers[idx]);
            proof {
                let sub = vers@.subrange(0, idx as int + 1);
                assert(sub.drop_last() =~= vers@.subrange(0, idx as int));
                assert(sub.last() == vers@[idx as int]);
                assert forall|x: Version| cat.node.versions@.contains(x) implies sub.contains(
                    x,
                ) by {
                    if pre.contains(x) {
                        let t = choose|t: int|
                            0 <= t < idx && vers@.subrange(0, idx as int)[t] == x;
                        assert(sub[t] == x);
                    } else {
                        assert(cat.node.version_set().contains(x));
                        assert(pre.to_set().insert(vers@[idx as int]).contains(x));
                        assert(!pre.to_set().contains(x));
                        assert(x == vers@[idx as int]);
                        assert(sub[idx as int] == x);
                    }
                }
                assert forall|x: Version| sub.contains(x) implies cat.node.versions@.contains(
                    x,
                ) by {
                    let t = choose|t: int| 0 <= t < sub.len() && sub[t] == x;
                    if t < idx {
                        assert(vers@.subrange(0, idx as int)[t] == x);
                        assert(pre.contains(x));
                    } else {
                        assert(t == idx);
                        assert(sub[t] == vers@[idx as int]);
                        assert(x == vers@[idx as int]);
                    }
                    assert(cat.node.version_set().contains(x));
                }
            }
            idx += 1;
        }
        proof {
            assert(vers@.subrange(0, m as int) =~= vers@);
        }
        Ok(cat)
    }
}

/// The catalog state, loaded lazily: constructed unloaded, filled from the
/// catalog file's text on first load, untouched by later loads.
pub struct LazyCatalog {
    catalog: Option<Catalog>,
}

impl LazyCatalog {
    /// Whether the catalog has been loaded.
    pub closed spec fn loaded(&self) -> bool {
        self.catalog is Some
    }

    /// The loaded catalog.
    pub closed spec fn spec_catalog(&self) -> Catalog {
        self.catalog->0
    }

    /// A loaded catalog is well formed.
    pub closed spec fn inv(&self) -> bool {
        self.loaded() ==> self.spec_catalog().well_formed()
    }

    /// Constructs a new, unloaded `LazyCatalog`.
    pub fn new() -> (r: LazyCatalog)
        ensures
            !r.loaded(),
            r.inv(),
    {
        LazyCatalog { catalog: None }
    }

    /// Whether the catalog has been loaded.
    pub fn is_loaded(&self) -> (r: bool)
        ensures
            r == self.loaded(),
    {
        match &self.catalog {
            Some(_) => true,
            None => false,
        }
    }

    /// Loads the catalog from the catalog file's text; once loaded, later
    /// loads leave it untouched.
    pub fn load(&mut self, text: &str) -> (r: Result<(), CatalogParseError>)
        requires
            old(self).inv(),
        ensures
            final(self).inv(),
            old(self).loaded() ==> *final(self) == *old(self) && r is Ok,
            !old(self).loaded() ==> match r {
                Ok(_) => final(self).loaded() && parse_catalog_text(text@) is Some,
                Err(_) => !final(self).loaded() && parse_catalog_text(text@) is None,
            },
    {
        if self.is_loaded() {
            return Ok(());
        }
        match Catalog::from_str(text) {
            Ok(c) => {
                self.catalog = Some(c);
                Ok(())
            },
            Err(e) => Err(e),
        }
    }

    /// The loaded catalog, mutably, or nothing before the first load.
    pub fn get_mut(&mut self) -> (r: Option<&mut Catalog>)
        ensures
            old(self).loaded() <==> r is Some,
    {
        match &mut self.catalog {
            Some(c) => Some(c),
            None => None,
        }
    }

    /// The loaded catalog, or nothing before the first load.
    pub fn get(&self) -> (r: Option<&Catalog>)
        ensures
            match r {
                Some(c) => self.loaded() && *c == self.spec_catalog(),
                None => !self.loaded(),
            },
    {
        match &self.catalog {
            Some(c) => Some(c),
            None => None,
        }
    }
}

} // verus!
