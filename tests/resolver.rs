use std::collections::HashSet;

use kube_resolver::addresses::{endpoints_to_addresses, format_address, Snapshot, Subset};
use kube_resolver::error::Error;
use kube_resolver::ports::{resolve_port, PortDecl};
use kube_resolver::reconcile::{Change, ResolverState, WatchEvent};
use kube_resolver::target::{PortSpec, TargetInfo};
use kube_resolver::text::parse_i32;

fn decl(name: Option<&str>, port: i32) -> PortDecl {
    PortDecl { name: name.map(|n| n.to_string()), port }
}

fn subset(addresses: &[&str], ports: Vec<PortDecl>) -> Subset {
    Subset { addresses: addresses.iter().map(|a| a.to_string()).collect(), ports }
}

fn snapshot(subsets: Vec<Subset>) -> Snapshot {
    Snapshot { subsets }
}

fn insert(a: &str) -> Change {
    Change::Insert(a.to_string())
}

fn remove(a: &str) -> Change {
    Change::Remove(a.to_string())
}

fn target(s: &str) -> TargetInfo {
    TargetInfo::parse(s).unwrap()
}

#[test]
fn parse_plain_service() {
    let t = target("kubernetes://foo");
    assert_eq!(t.service_name(), "foo");
    assert_eq!(t.service_namespace(), &None);
    assert_eq!(t.port(), &PortSpec::Unspecified);
}

#[test]
fn parse_namespace_and_numeric_port() {
    let t = target("kubernetes://foo.bar:9000");
    assert_eq!(t.service_name(), "foo");
    assert_eq!(t.service_namespace(), &Some("bar".to_string()));
    assert_eq!(t.port(), &PortSpec::Numeric(9000));
}

#[test]
fn parse_other_scheme_fails() {
    assert_eq!(TargetInfo::parse("http://foo"), Err(Error::NotMatchSchema("http".to_string())));
}

#[test]
fn parse_named_port() {
    let t = target("kubernetes://foo:grpc");
    assert_eq!(t.service_name(), "foo");
    assert_eq!(t.service_namespace(), &None);
    assert_eq!(t.port(), &PortSpec::Named("grpc".to_string()));
}

#[test]
fn parse_without_scheme() {
    let t = target("foo.bar:9000");
    assert_eq!(t.service_name(), "foo");
    assert_eq!(t.service_namespace(), &Some("bar".to_string()));
    assert_eq!(t.port(), &PortSpec::Numeric(9000));
}

#[test]
fn parse_extra_segments_are_ignored() {
    let t = target("kubernetes://foo.bar.svc.cluster.local:http");
    assert_eq!(t.service_name(), "foo");
    assert_eq!(t.service_namespace(), &Some("bar".to_string()));
    assert_eq!(t.port(), &PortSpec::Named("http".to_string()));
}

#[test]
fn parse_missing_host() {
    assert_eq!(TargetInfo::parse("kubernetes://"), Err(Error::HostIsEmpty));
    assert_eq!(TargetInfo::parse("kubernetes://:80"), Err(Error::HostIsEmpty));
    assert_eq!(TargetInfo::parse(""), Err(Error::HostIsEmpty));
}

#[test]
fn parse_drops_path() {
    let t = target("kubernetes://foo.bar/some/path");
    assert_eq!(t.service_name(), "foo");
    assert_eq!(t.service_namespace(), &Some("bar".to_string()));
    assert_eq!(t.port(), &PortSpec::Unspecified);
}

#[test]
fn parse_port_out_of_range_is_a_name() {
    let t = target("kubernetes://foo:99999999999");
    assert_eq!(t.port(), &PortSpec::Named("99999999999".to_string()));
}

#[test]
fn integer_syntax() {
    assert_eq!(parse_i32("0"), Some(0));
    assert_eq!(parse_i32("+42"), Some(42));
    assert_eq!(parse_i32("-17"), Some(-17));
    assert_eq!(parse_i32("2147483647"), Some(i32::MAX));
    assert_eq!(parse_i32("-2147483648"), Some(i32::MIN));
    assert_eq!(parse_i32("2147483648"), None);
    assert_eq!(parse_i32("-2147483649"), None);
    assert_eq!(parse_i32(""), None);
    assert_eq!(parse_i32("-"), None);
    assert_eq!(parse_i32("12a"), None);
    assert_eq!(parse_i32(" 1"), None);
}

#[test]
fn port_resolution_policy() {
    let ports = vec![decl(Some("grpc"), 50051), decl(Some("http"), 8080)];
    assert_eq!(resolve_port(&ports, &PortSpec::Named("grpc".to_string())), Ok(50051));
    assert_eq!(resolve_port(&ports, &PortSpec::Named("http".to_string())), Ok(8080));
    assert_eq!(resolve_port(&ports, &PortSpec::Numeric(9999)), Ok(9999));
    assert_eq!(resolve_port(&ports, &PortSpec::Unspecified), Ok(50051));
}

#[test]
fn port_resolution_errors() {
    let ports = vec![decl(None, 80), decl(Some("grpc"), 50051), decl(Some("grpc"), 50052)];
    assert_eq!(resolve_port(&ports, &PortSpec::Named("grpc".to_string())), Ok(50051));
    assert_eq!(
        resolve_port(&ports, &PortSpec::Named("admin".to_string())),
        Err(Error::NotFoundPort("admin".to_string()))
    );
    assert_eq!(resolve_port(&vec![], &PortSpec::Unspecified), Err(Error::PortListEmpty));
    assert_eq!(resolve_port(&vec![], &PortSpec::Numeric(7)), Ok(7));
}

#[test]
fn address_formatting() {
    assert_eq!(format_address(&"10.0.0.1".to_string(), 80), "10.0.0.1:80");
    assert_eq!(format_address(&"10.0.0.1".to_string(), 0), "10.0.0.1:0");
    assert_eq!(format_address(&"h".to_string(), 2147483647), "h:2147483647");
    assert_eq!(format_address(&"h".to_string(), -2147483648), "h:-2147483648");
}

#[test]
fn address_set_of_snapshot() {
    let t = target("kubernetes://foo:grpc");
    let snap = snapshot(vec![
        subset(&["10.0.0.1", "10.0.0.2"], vec![decl(Some("grpc"), 50051)]),
        subset(&["10.0.0.2", "10.0.0.3"], vec![decl(Some("http"), 80), decl(Some("grpc"), 50051)]),
    ]);
    assert_eq!(
        endpoints_to_addresses(&t, &snap),
        Ok(vec![
            "10.0.0.1:50051".to_string(),
            "10.0.0.2:50051".to_string(),
            "10.0.0.3:50051".to_string()
        ])
    );
}

#[test]
fn address_set_of_empty_snapshot() {
    let t = target("kubernetes://foo");
    assert_eq!(endpoints_to_addresses(&t, &snapshot(vec![])), Ok(vec![]));
}

#[test]
fn address_set_fails_on_one_bad_subset() {
    let t = target("kubernetes://foo:grpc");
    let snap = snapshot(vec![
        subset(&["10.0.0.1"], vec![decl(Some("grpc"), 50051)]),
        subset(&["10.0.0.2"], vec![decl(Some("http"), 80)]),
    ]);
    assert_eq!(endpoints_to_addresses(&t, &snap), Err(Error::NotFoundPort("grpc".to_string())));
    let u = target("kubernetes://foo");
    let empty_ports = snapshot(vec![subset(&["10.0.0.1"], vec![])]);
    assert_eq!(endpoints_to_addresses(&u, &empty_ports), Err(Error::PortListEmpty));
}

#[test]
fn end_to_end_two_applied_events() {
    let t = target("kubernetes://foo");
    let mut state = ResolverState::new();
    let first = WatchEvent::Applied(snapshot(vec![subset(&["10.0.0.1", "10.0.0.2"], vec![decl(None, 80)])]));
    let second = WatchEvent::Applied(snapshot(vec![subset(&["10.0.0.2", "10.0.0.3"], vec![decl(None, 80)])]));
    assert_eq!(state.on_event(&t, &first), Ok(vec![insert("10.0.0.1:80"), insert("10.0.0.2:80")]));
    assert_eq!(state.on_event(&t, &second), Ok(vec![remove("10.0.0.1:80"), insert("10.0.0.3:80")]));
    assert_eq!(state.previous(), &vec!["10.0.0.2:80".to_string(), "10.0.0.3:80".to_string()]);
}

#[test]
fn same_snapshot_twice_emits_nothing() {
    let t = target("kubernetes://foo");
    let mut state = ResolverState::new();
    let ev = WatchEvent::Applied(snapshot(vec![subset(&["10.0.0.1", "10.0.0.2"], vec![decl(None, 80)])]));
    assert_eq!(state.on_event(&t, &ev).unwrap().len(), 2);
    assert_eq!(state.on_event(&t, &ev), Ok(vec![]));
}

#[test]
fn deleted_removes_everything() {
    let t = target("kubernetes://foo");
    let mut state = ResolverState::new();
    let ev = WatchEvent::Applied(snapshot(vec![subset(&["10.0.0.1", "10.0.0.2"], vec![decl(None, 80)])]));
    state.on_event(&t, &ev).unwrap();
    assert_eq!(state.on_event(&t, &WatchEvent::Deleted), Ok(vec![remove("10.0.0.1:80"), remove("10.0.0.2:80")]));
    assert!(state.previous().is_empty());
    assert_eq!(state.on_event(&t, &ev), Ok(vec![insert("10.0.0.1:80"), insert("10.0.0.2:80")]));
}

#[test]
fn other_events_change_nothing() {
    let t = target("kubernetes://foo");
    let mut state = ResolverState::new();
    let ev = WatchEvent::Applied(snapshot(vec![subset(&["10.0.0.1"], vec![decl(None, 80)])]));
    state.on_event(&t, &ev).unwrap();
    assert_eq!(state.on_event(&t, &WatchEvent::Other), Ok(vec![]));
    assert_eq!(state.previous(), &vec!["10.0.0.1:80".to_string()]);
}

#[test]
fn resolution_error_keeps_state() {
    let t = target("kubernetes://foo:grpc");
    let mut state = ResolverState::new();
    let good = WatchEvent::Applied(snapshot(vec![subset(&["10.0.0.1"], vec![decl(Some("grpc"), 9)])]));
    let bad = WatchEvent::Applied(snapshot(vec![subset(&["10.0.0.2"], vec![decl(Some("http"), 8)])]));
    state.on_event(&t, &good).unwrap();
    assert_eq!(state.on_event(&t, &bad), Err(Error::NotFoundPort("grpc".to_string())));
    assert_eq!(state.previous(), &vec!["10.0.0.1:9".to_string()]);
}

#[test]
fn pool_tracks_last_snapshot_over_a_run() {
    let t = target("kubernetes://foo");
    let runs: Vec<Vec<&str>> = vec![
        vec!["10.0.0.1", "10.0.0.2", "10.0.0.1"],
        vec![],
        vec!["10.0.0.3"],
        vec!["10.0.0.3", "10.0.0.4", "10.0.0.1"],
        vec!["10.0.0.4"],
    ];
    let mut state = ResolverState::new();
    let mut live: HashSet<String> = HashSet::new();
    for ips in runs {
        let ev = WatchEvent::Applied(snapshot(vec![subset(&ips, vec![decl(None, 443)])]));
        for c in state.on_event(&t, &ev).unwrap() {
            match c {
                Change::Insert(a) => assert!(live.insert(a)),
                Change::Remove(a) => assert!(live.remove(&a)),
            }
        }
        let expected: HashSet<String> = ips.iter().map(|ip| format!("{}:443", ip)).collect();
        assert_eq!(live, expected);
    }
}
