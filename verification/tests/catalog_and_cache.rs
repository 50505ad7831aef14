use notion_core::cache::{expiry_text, format_http_date, max_age, read_cached_opt, use_cached_index};
use notion_core::catalog::{Catalog, Installed, NodeCatalog};
use notion_core::serial::LazyCatalog;
use notion_core::version::Version;

fn v(major: u64, minor: u64, patch: u64) -> Version {
    Version::new(major, minor, patch)
}

fn catalog_with(activated: Option<Version>, versions: Vec<Version>) -> Catalog {
    Catalog { node: NodeCatalog { activated, versions } }
}

#[test]
fn install_now_inserts_and_saves() {
    let mut c = catalog_with(None, vec![v(1, 0, 0)]);
    let save = c.install_node(&Installed::Now(v(2, 0, 0)));
    assert!(save);
    assert_eq!(c.node.versions, vec![v(1, 0, 0), v(2, 0, 0)]);
}

#[test]
fn install_already_is_a_noop() {
    let mut c = catalog_with(None, vec![v(1, 0, 0)]);
    let save = c.install_node(&Installed::Already(v(1, 0, 0)));
    assert!(!save);
    assert_eq!(c.node.versions, vec![v(1, 0, 0)]);
}

#[test]
fn install_keeps_versions_sorted() {
    let mut c = catalog_with(None, vec![v(2, 0, 0)]);
    c.install_node(&Installed::Now(v(1, 0, 0)));
    c.install_node(&Installed::Now(v(3, 0, 0)));
    c.install_node(&Installed::Now(v(1, 0, 0)));
    assert_eq!(c.node.versions, vec![v(1, 0, 0), v(2, 0, 0), v(3, 0, 0)]);
}

#[test]
fn activate_persists_only_on_change() {
    let mut c = catalog_with(None, vec![v(1, 2, 0)]);
    let first = c.activate_node(&v(1, 2, 0));
    assert!(first);
    assert_eq!(c.node.activated, Some(v(1, 2, 0)));
    let second = c.activate_node(&v(1, 2, 0));
    assert!(!second);
    assert_eq!(c.node.activated, Some(v(1, 2, 0)));
    let third = c.activate_node(&v(2, 0, 0));
    assert!(third);
}

#[test]
fn uninstall_twice_is_idempotent() {
    let mut c = catalog_with(None, vec![v(1, 0, 0), v(2, 0, 0)]);
    let first = c.uninstall_node(&v(1, 0, 0), true);
    assert_eq!(first, Ok(true));
    assert_eq!(c.node.versions, vec![v(2, 0, 0)]);
    let second = c.uninstall_node(&v(1, 0, 0), true);
    assert_eq!(second, Ok(false));
    assert_eq!(c.node.versions, vec![v(2, 0, 0)]);
}

#[test]
fn uninstall_of_unknown_version_is_a_noop() {
    let mut c = catalog_with(Some(v(2, 0, 0)), vec![v(2, 0, 0)]);
    assert_eq!(c.uninstall_node(&v(9, 9, 9), false), Ok(false));
    assert_eq!(c.node.versions, vec![v(2, 0, 0)]);
    assert_eq!(c.node.activated, Some(v(2, 0, 0)));
}

#[test]
fn uninstall_with_missing_directory_is_an_error() {
    let mut c = catalog_with(None, vec![v(1, 0, 0)]);
    let r = c.uninstall_node(&v(1, 0, 0), false);
    assert!(r.is_err());
    assert_eq!(r.unwrap_err().version, v(1, 0, 0));
    assert_eq!(c.node.versions, vec![v(1, 0, 0)]);
}

#[test]
fn catalog_text_round_trips() {
    let c = catalog_with(Some(v(1, 2, 3)), vec![v(1, 0, 0), v(2, 0, 0)]);
    let text = c.to_string();
    assert_eq!(
        text,
        "[node]\nactivated = \"1.2.3\"\nversions = [\n    \"1.0.0\",\n    \"2.0.0\",\n]\n"
    );
    let back = Catalog::from_str(&text).unwrap();
    assert_eq!(back.node.activated, Some(v(1, 2, 3)));
    assert_eq!(back.node.versions, vec![v(1, 0, 0), v(2, 0, 0)]);
}

#[test]
fn catalog_text_round_trips_without_activated() {
    let c = catalog_with(None, vec![]);
    let text = c.to_string();
    assert_eq!(text, "[node]\nversions = [\n]\n");
    let back = Catalog::from_str(&text).unwrap();
    assert_eq!(back.node.activated, None);
    assert_eq!(back.node.versions, Vec::<Version>::new());
}

#[test]
fn catalog_parse_normalizes_order() {
    let text = "[node]\nversions = [\n    \"2.0.0\",\n    \"1.0.0\",\n    \"2.0.0\",\n]\n";
    let back = Catalog::from_str(text).unwrap();
    assert_eq!(back.node.versions, vec![v(1, 0, 0), v(2, 0, 0)]);
}

#[test]
fn catalog_parse_rejects_garbage() {
    assert!(Catalog::from_str("").is_err());
    assert!(Catalog::from_str("[node]\n").is_err());
    assert!(Catalog::from_str("[node]\nversions = [\n    \"oops\",\n]\n").is_err());
    assert!(Catalog::from_str("nonsense").is_err());
}

#[test]
fn lazy_catalog_loads_once() {
    let mut lazy = LazyCatalog::new();
    assert!(!lazy.is_loaded());
    assert!(lazy.get().is_none());
    let text = "[node]\nactivated = \"1.2.3\"\nversions = [\n    \"1.2.3\",\n]\n";
    lazy.load(text).unwrap();
    assert!(lazy.is_loaded());
    assert_eq!(lazy.get().unwrap().node.activated, Some(v(1, 2, 3)));
    lazy.load("garbage that would not parse").unwrap();
    assert_eq!(lazy.get().unwrap().node.activated, Some(v(1, 2, 3)));
}

#[test]
fn fresh_cache_suppresses_the_fetch() {
    let now: u64 = 1000000000;
    let expiry = format_http_date(now + 3600);
    assert!(use_cached_index(Some(&expiry), true, now));
}

#[test]
fn expired_or_absent_cache_forces_the_fetch() {
    let now: u64 = 1000000000;
    let past = format_http_date(now - 3600);
    assert!(!use_cached_index(Some(&past), true, now));
    assert!(!use_cached_index(None, true, now));
    assert!(!use_cached_index(Some("not a date"), true, now));
    let same = format_http_date(now);
    assert!(!use_cached_index(Some(&same), true, now));
}

#[test]
fn fresh_expiry_without_a_body_forces_the_fetch() {
    let now: u64 = 1000000000;
    let expiry = format_http_date(now + 3600);
    assert!(!use_cached_index(Some(&expiry), false, now));
}

#[test]
fn fresh_cache_serves_the_cached_body_itself() {
    let now: u64 = 1000000000;
    let fresh = format_http_date(now + 3600);
    let r = read_cached_opt(Some(&fresh), Some("the cached index".to_string()), now);
    assert_eq!(r, Some("the cached index".to_string()));
    assert_eq!(read_cached_opt(Some(&fresh), None, now), None);
    let past = format_http_date(now - 1);
    assert_eq!(read_cached_opt(Some(&past), Some("the cached index".to_string()), now), None);
    assert_eq!(read_cached_opt(None, Some("the cached index".to_string()), now), None);
}

#[test]
fn max_age_reads_the_cache_control_directive() {
    assert_eq!(max_age(Some("public, max-age=3600, s-maxage=60")), 3600);
    assert_eq!(max_age(Some("max-age=0")), 0);
    assert_eq!(max_age(Some("no-cache")), 14400);
    assert_eq!(max_age(None), 14400);
    assert_eq!(max_age(Some("max-age=99999999999999999999")), 14400);
}

#[test]
fn expiry_text_prefers_the_expires_header() {
    let s = expiry_text(Some("Fri, 15 May 2015 15:34:21 GMT"), Some("max-age=1"), 0);
    assert_eq!(s, "Fri, 15 May 2015 15:34:21 GMT");
}

#[test]
fn expiry_text_defaults_to_four_hours() {
    let s = expiry_text(None, None, 0);
    assert_eq!(s, "Thu, 01 Jan 1970 04:00:00 GMT");
}

#[test]
fn expiry_text_uses_the_max_age_directive() {
    let s = expiry_text(None, Some("max-age=60"), 0);
    assert_eq!(s, "Thu, 01 Jan 1970 00:01:00 GMT");
}

#[test]
fn catalog_parse_accepts_an_activated_entry_alone() {
    let text = "[node]\nactivated = \"3.1.4\"\nversions = [\n]\n";
    let back = Catalog::from_str(text).unwrap();
    assert_eq!(back.node.activated, Some(v(3, 1, 4)));
    assert_eq!(back.node.versions, Vec::<Version>::new());
}

#[test]
fn catalog_text_of_the_empty_catalog_round_trips() {
    let c = Catalog::empty();
    let back = Catalog::from_str(&c.to_string()).unwrap();
    assert_eq!(back.node.activated, None);
    assert_eq!(back.node.versions, Vec::<Version>::new());
}
