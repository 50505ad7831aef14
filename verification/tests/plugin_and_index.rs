use notion_core::config::{Config, NodeConfig};
use notion_core::index::{parse_version_lenient, Index, VersionData};
use notion_core::installer::{InstallOrigin, Installer};
use notion_core::plugin::{Resolve, ResolutionError, ResolveResponse};
use notion_core::version::{ReqOp, Version, VersionReq};
use notion_core::archive_extension;

fn v(major: u64, minor: u64, patch: u64) -> Version {
    Version::new(major, minor, patch)
}

fn data(files: Vec<&str>) -> VersionData {
    VersionData { files: files.into_iter().map(|s| s.to_string()).collect() }
}

#[test]
fn index_resolution_picks_highest_satisfying() {
    let raw = vec![
        ("v1.0.0".to_string(), data(vec!["linux-x64"])),
        ("v1.2.0".to_string(), data(vec!["linux-x64"])),
        ("v2.0.0".to_string(), data(vec!["linux-x64"])),
    ];
    let ix = Index::from_entries(raw).unwrap();
    let req = VersionReq::new(ReqOp::Caret, v(1, 0, 0));
    let inst = ix.resolve_public(&req).unwrap();
    assert_eq!(inst.version, v(1, 2, 0));
    assert!(matches!(inst.origin, InstallOrigin::PublicRegistry));
}

#[test]
fn index_resolution_without_a_match_fails() {
    let raw = vec![
        ("1.0.0".to_string(), data(vec![])),
        ("1.2.0".to_string(), data(vec![])),
        ("2.0.0".to_string(), data(vec![])),
    ];
    let ix = Index::from_entries(raw).unwrap();
    let req = VersionReq::new(ReqOp::Caret, v(3, 0, 0));
    let e = ix.resolve_public(&req).unwrap_err();
    assert_eq!(e.matching, req);
    assert_eq!(e.exit_code(), 100);
}

#[test]
fn index_orders_entries_and_drops_duplicates() {
    let raw = vec![
        ("v2.0.0".to_string(), data(vec![])),
        ("v1.0.0".to_string(), data(vec![])),
        ("v2.0.0".to_string(), data(vec![])),
    ];
    let ix = Index::from_entries(raw).unwrap();
    let versions: Vec<Version> = ix.entries.iter().map(|e| e.0).collect();
    assert_eq!(versions, vec![v(1, 0, 0), v(2, 0, 0)]);
}

#[test]
fn index_rejects_an_unreadable_version() {
    let raw = vec![
        ("v1.0.0".to_string(), data(vec![])),
        ("not-a-version".to_string(), data(vec![])),
    ];
    let e = Index::from_entries(raw).unwrap_err();
    assert_eq!(e.entry, "not-a-version");
}

#[test]
fn lenient_parsing_strips_the_v_prefix() {
    assert_eq!(parse_version_lenient("v10.0.0"), Some(v(10, 0, 0)));
    assert_eq!(parse_version_lenient("10.0.0"), Some(v(10, 0, 0)));
    assert_eq!(parse_version_lenient("vv10.0.0"), None);
}

#[test]
fn bin_plugin_command_is_split_into_words() {
    let plugin = Resolve::Bin("resolver --tool node '>= 8'".to_string());
    let plan = plugin.resolve_plan().unwrap();
    assert_eq!(plan.bin, "resolver");
    assert_eq!(plan.args, vec!["--tool".to_string(), "node".to_string(), ">= 8".to_string()]);
}

#[test]
fn empty_plugin_command_is_invalid() {
    let plugin = Resolve::Bin("   ".to_string());
    match plugin.resolve_plan() {
        Err(ResolutionError::InvalidCommand(e)) => assert_eq!(e.command, "   "),
        other => panic!("expected an invalid-command error, got {:?}", other.is_ok()),
    }
}

#[test]
fn control_characters_in_a_plugin_command_are_invalid() {
    let tabbed = Resolve::Bin("resolver\t--tool node".to_string());
    match tabbed.resolve_plan() {
        Err(ResolutionError::InvalidCommand(e)) => assert_eq!(e.command, "resolver\t--tool node"),
        _ => panic!("expected a tab in the command to be refused"),
    }
    let multiline = Resolve::Bin("resolver\nnode".to_string());
    assert!(matches!(
        multiline.resolve_plan(),
        Err(ResolutionError::InvalidCommand(_))
    ));
    let accented = Resolve::Bin("r\u{e9}solveur node".to_string());
    match accented.resolve_plan() {
        Err(ResolutionError::InvalidCommand(e)) => {
            assert_eq!(e.command, "r\u{e9}solveur node");
        }
        _ => panic!("expected a command beyond ASCII to be refused"),
    }
}

#[test]
fn url_plugin_kind_is_not_implemented() {
    let plugin = Resolve::Url("https://example.test/resolve".to_string());
    assert!(matches!(plugin.resolve_plan(), Err(ResolutionError::UrlUnsupported)));
}

#[test]
fn url_response_resolves_to_a_remote_installer() {
    let resp =
        ResolveResponse::from_fields("resolver", "url", "5.0.0", Some("http://x/5.0.0.tgz"))
            .unwrap();
    let inst: Installer = resp.into_installer().unwrap();
    assert_eq!(inst.version, v(5, 0, 0));
    match inst.origin {
        InstallOrigin::Remote { url } => assert_eq!(url, "http://x/5.0.0.tgz"),
        InstallOrigin::PublicRegistry => panic!("expected a remote origin"),
    }
}

#[test]
fn malformed_response_fields_are_an_error() {
    let cases = vec![
        ResolveResponse::from_fields("resolver --tool node", "zip", "5.0.0", None),
        ResolveResponse::from_fields("resolver --tool node", "url", "five", Some("http://x")),
        ResolveResponse::from_fields("resolver --tool node", "url", "5.0.0", None),
    ];
    for case in cases {
        match case {
            Err(ResolutionError::MalformedResponse { command }) => {
                assert_eq!(command, "resolver --tool node");
            }
            _ => panic!("expected a malformed-response error carrying the command"),
        }
    }
}

#[test]
fn stream_response_fails_loudly() {
    let resp = ResolveResponse::from_fields("resolver", "stream", "5.0.0", None).unwrap();
    match resp.into_installer() {
        Err(ResolutionError::StreamUnsupported { version }) => assert_eq!(version, v(5, 0, 0)),
        _ => panic!("expected the stream kind to be refused"),
    }
}

#[test]
fn configuration_selects_the_resolver() {
    let none = Config { node: None };
    assert!(none.node_resolver().is_none());
    let without = Config { node: Some(NodeConfig { resolve: None }) };
    assert!(without.node_resolver().is_none());
    let with = Config {
        node: Some(NodeConfig { resolve: Some(Resolve::Bin("resolver".to_string())) }),
    };
    match with.node_resolver() {
        Some(Resolve::Bin(cmd)) => assert_eq!(cmd, "resolver"),
        _ => panic!("expected the configured Bin plugin"),
    }
}

#[test]
fn archive_extension_is_a_tarball() {
    assert_eq!(archive_extension(), "tar.gz");
}
