use notion_core::version::{ReqOp, Version, VersionReq};
use notion_core::catalog::NodeCatalog;
use notion_core::errors::NoNodeVersionFoundError;

fn v(major: u64, minor: u64, patch: u64) -> Version {
    Version::new(major, minor, patch)
}

#[test]
fn version_ordering_is_lexicographic() {
    assert!(v(1, 0, 0).lt(&v(1, 0, 1)));
    assert!(v(1, 0, 9).lt(&v(1, 1, 0)));
    assert!(v(1, 9, 9).lt(&v(2, 0, 0)));
    assert!(!v(2, 0, 0).lt(&v(2, 0, 0)));
    assert!(v(2, 0, 0).le(&v(2, 0, 0)));
}

#[test]
fn version_text_round_trips() {
    let a = v(10, 2, 0);
    assert_eq!(a.to_string(), "10.2.0");
    assert_eq!(Version::parse("10.2.0"), Some(a));
    assert_eq!(Version::parse("0.0.0"), Some(v(0, 0, 0)));
    assert_eq!(Version::parse("1.2"), None);
    assert_eq!(Version::parse("1.2.3.4"), None);
    assert_eq!(Version::parse(""), None);
    assert_eq!(Version::parse("a.b.c"), None);
    assert_eq!(Version::parse("18446744073709551615.0.1"), Some(v(u64::MAX, 0, 1)));
    assert_eq!(Version::parse("18446744073709551616.0.0"), None);
}

#[test]
fn caret_matching() {
    let req = VersionReq::new(ReqOp::Caret, v(1, 0, 0));
    assert!(req.matches(&v(1, 0, 0)));
    assert!(req.matches(&v(1, 2, 0)));
    assert!(req.matches(&v(1, 99, 99)));
    assert!(!req.matches(&v(2, 0, 0)));
    assert!(!req.matches(&v(0, 9, 9)));
    let low = VersionReq::new(ReqOp::Caret, v(0, 2, 1));
    assert!(low.matches(&v(0, 2, 5)));
    assert!(!low.matches(&v(0, 3, 0)));
}

#[test]
fn tilde_and_range_matching() {
    let tilde = VersionReq::new(ReqOp::Tilde, v(1, 2, 3));
    assert!(tilde.matches(&v(1, 2, 3)));
    assert!(tilde.matches(&v(1, 2, 9)));
    assert!(!tilde.matches(&v(1, 3, 0)));
    assert!(!tilde.matches(&v(1, 2, 2)));
    let ge = VersionReq::new(ReqOp::GreaterEq, v(8, 0, 0));
    assert!(ge.matches(&v(8, 0, 0)));
    assert!(ge.matches(&v(10, 1, 0)));
    assert!(!ge.matches(&v(7, 9, 9)));
    let exact = VersionReq::new(ReqOp::Exact, v(4, 8, 4));
    assert!(exact.matches(&v(4, 8, 4)));
    assert!(!exact.matches(&v(4, 8, 5)));
}

#[test]
fn resolve_local_picks_highest_satisfying() {
    let catalog = NodeCatalog { activated: None, versions: vec![v(1, 0, 0), v(1, 2, 0), v(2, 0, 0)] };
    let req = VersionReq::new(ReqOp::Caret, v(1, 0, 0));
    assert_eq!(catalog.resolve_local(&req), Some(v(1, 2, 0)));
}

#[test]
fn resolve_local_no_match_yields_none() {
    let catalog = NodeCatalog { activated: None, versions: vec![v(1, 0, 0), v(1, 2, 0), v(2, 0, 0)] };
    let req = VersionReq::new(ReqOp::Caret, v(3, 0, 0));
    assert_eq!(catalog.resolve_local(&req), None);
}

#[test]
fn resolve_local_on_empty_catalog() {
    let catalog = NodeCatalog { activated: None, versions: vec![] };
    let req = VersionReq::new(ReqOp::GreaterEq, v(0, 0, 0));
    assert_eq!(catalog.resolve_local(&req), None);
}

#[test]
fn contains_reports_membership() {
    let catalog = NodeCatalog { activated: None, versions: vec![v(1, 0, 0), v(2, 0, 0)] };
    assert!(catalog.contains(&v(1, 0, 0)));
    assert!(!catalog.contains(&v(1, 1, 0)));
}

#[test]
fn no_version_found_error_contract() {
    let e = NoNodeVersionFoundError { matching: VersionReq::new(ReqOp::Caret, v(3, 0, 0)) };
    assert!(e.is_user_friendly());
    assert_eq!(e.exit_code(), 100);
}

#[test]
fn strict_and_inclusive_bounds() {
    let gt = VersionReq::new(ReqOp::Greater, v(1, 0, 0));
    assert!(gt.matches(&v(1, 0, 1)));
    assert!(!gt.matches(&v(1, 0, 0)));
    let lt = VersionReq::new(ReqOp::Less, v(1, 0, 0));
    assert!(lt.matches(&v(0, 9, 9)));
    assert!(!lt.matches(&v(1, 0, 0)));
    let le = VersionReq::new(ReqOp::LessEq, v(1, 0, 0));
    assert!(le.matches(&v(1, 0, 0)));
    assert!(!le.matches(&v(1, 0, 1)));
}

#[test]
fn resolve_local_with_an_exact_requirement() {
    let catalog = NodeCatalog {
        activated: None,
        versions: vec![v(1, 0, 0), v(1, 2, 0), v(2, 0, 0)],
    };
    let req = VersionReq::new(ReqOp::Exact, v(1, 0, 0));
    assert_eq!(catalog.resolve_local(&req), Some(v(1, 0, 0)));
}

#[test]
fn resolve_local_takes_the_top_of_an_open_range() {
    let catalog = NodeCatalog {
        activated: None,
        versions: vec![v(1, 0, 0), v(1, 2, 0), v(2, 0, 0)],
    };
    let req = VersionReq::new(ReqOp::GreaterEq, v(0, 0, 1));
    assert_eq!(catalog.resolve_local(&req), Some(v(2, 0, 0)));
}
