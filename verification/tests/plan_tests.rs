use nporter::config::Family;
use nporter::metrics::{ok_head, request_target, wants_metrics, NOT_FOUND_RESPONSE};
use nporter::model::{Config, Mapping, Protocol};
use nporter::nft::plan::{apply, forwarding_to_enable, identify_rule, observe, report, ObservedItem, RuleKey};
use nporter::nft::ruleset::{content_hash, identity_comment, parse_identity};
use nporter::nft::shape::{
    is_unspecified, nfproto_byte, rule_shape, table_family, ListenMatch, RuleShape, ShapeError,
    TableFamily,
};
use nporter::nft::RuleKind;
use nporter::probe::{icmp_result, ping_args, plan_probe, tcp_result, ProbeStep};
use nporter::ufw::{failure_message, route_args, step_name, Rule};

fn mapping(id: &str) -> Mapping {
    Mapping {
        id: id.into(),
        name: String::new(),
        protocol: Protocol::Tcp,
        listen_ip: "0.0.0.0".into(),
        listen_port: 10022,
        target_ip: "192.0.2.11".into(),
        target_port: 22,
        enabled: true,
        masquerade: true,
        description: String::new(),
    }
}

fn key(id: &str, kind: RuleKind, hash: &str) -> RuleKey {
    RuleKey { id: id.into(), kind, hash: hash.into() }
}

fn observed_all(cfg: &Config) -> Vec<ObservedItem> {
    let mut out = Vec::new();
    let mut handle = 1;
    for m in &cfg.mappings {
        let h = content_hash(m);
        for kind in [RuleKind::Dnat, RuleKind::Masquerade, RuleKind::ForwardIn, RuleKind::ForwardReturn] {
            out.push(ObservedItem { key: key(&m.id, kind, &h), handle });
            handle += 1;
        }
    }
    out
}

#[test]
fn apply_onto_empty_table_adds_everything() {
    let mut cfg = Config::default();
    cfg.mappings.push(mapping("ssh"));
    let p = apply(&cfg, &Vec::new());
    assert_eq!(p.add.len(), 4);
    assert_eq!(p.kept, 0);
    assert!(p.delete.is_empty() && p.skipped.is_empty());
    assert!(p.forward_ipv4 && p.forward_ipv6);
    let r = report(&p);
    assert_eq!((r.added, r.deleted, r.kept), (4, 0, 0));
}

#[test]
fn apply_twice_changes_nothing() {
    let mut cfg = Config::default();
    cfg.mappings.push(mapping("ssh"));
    let on_kernel = observed_all(&cfg);
    let p = apply(&cfg, &on_kernel);
    assert!(p.add.is_empty());
    assert!(p.delete.is_empty());
    assert!(p.skipped.is_empty());
    assert_eq!(p.kept, 4);
}

#[test]
fn apply_deletes_stale_and_duplicates() {
    let mut cfg = Config::default();
    cfg.mappings.push(mapping("ssh"));
    let h = content_hash(&cfg.mappings[0]);
    let observed = vec![
        ObservedItem { key: key("ssh", RuleKind::Dnat, &h), handle: 10 },
        ObservedItem { key: key("ssh", RuleKind::Dnat, &h), handle: 11 },
        ObservedItem { key: key("ssh", RuleKind::ForwardIn, "0000000000000000"), handle: 12 },
        ObservedItem { key: key("gone", RuleKind::Dnat, &h), handle: 0 },
    ];
    let p = apply(&cfg, &observed);
    assert_eq!(p.kept, 1);
    assert_eq!(p.add.len(), 3);
    let deleted: Vec<(RuleKind, u64)> = p.delete.iter().map(|d| (d.kind, d.handle)).collect();
    assert_eq!(deleted, vec![(RuleKind::Dnat, 11), (RuleKind::ForwardIn, 12)]);
    assert_eq!(p.skipped.len(), 1);
    assert_eq!(p.skipped[0].id, "gone");
}

#[test]
fn disabled_mappings_have_no_rules_and_forwarding_follows_family() {
    let mut cfg = Config::default();
    let mut m = mapping("ssh");
    m.enabled = false;
    cfg.mappings.push(m);
    assert!(apply(&cfg, &Vec::new()).add.is_empty());
    cfg.nftables.family = "ip6".into();
    assert_eq!(forwarding_to_enable(&cfg), (false, true));
    cfg.nftables.family = "ip".into();
    assert_eq!(forwarding_to_enable(&cfg), (true, false));
    cfg.nftables.enable_ip_forward = false;
    assert_eq!(forwarding_to_enable(&cfg), (false, false));
}

#[test]
fn observed_rules_for_status() {
    let observed = vec![ObservedItem { key: key("a", RuleKind::Masquerade, "h"), handle: 3 }];
    let r = observe(&observed);
    assert_eq!(r.len(), 1);
    assert_eq!(r[0].mapping_id, "a");
    assert_eq!(r[0].kind, RuleKind::Masquerade);
}

#[test]
fn identifies_own_rules_by_comment() {
    let m = mapping("ssh");
    let h = content_hash(&m);
    let comment = identity_comment(&m.id, RuleKind::ForwardReturn, &h);
    let item = identify_rule(Some(comment.as_bytes()), Some(42)).unwrap();
    assert_eq!(item.key.id, "ssh");
    assert_eq!(item.key.kind, RuleKind::ForwardReturn);
    assert_eq!(item.key.hash, h);
    assert_eq!(item.handle, 42);
    assert_eq!(identify_rule(Some(comment.as_bytes()), None).unwrap().handle, 0);
    assert!(identify_rule(None, Some(1)).is_none());
    assert!(identify_rule(Some(b"someone else"), Some(1)).is_none());
    assert!(identify_rule(Some(&[0xff, 0xfe]), Some(1)).is_none());
    assert_eq!(
        parse_identity(&comment),
        Some(("ssh".to_string(), RuleKind::ForwardReturn, h.clone()))
    );
}

#[test]
fn rule_shapes() {
    let m = mapping("ssh");
    match rule_shape(&m, RuleKind::Dnat).unwrap() {
        RuleShape::Dnat { listen, listen_port, protocol, family, target, target_port } => {
            assert!(matches!(listen, ListenMatch::AnyOf(Family::V4)));
            assert_eq!((listen_port, target_port), (10022, 22));
            assert_eq!(protocol, Protocol::Tcp);
            assert_eq!(family, Family::V4);
            assert_eq!(target, "192.0.2.11");
        }
        other => panic!("unexpected {other:?}"),
    }
    let mut explicit = mapping("web");
    explicit.listen_ip = "198.51.100.5".into();
    match rule_shape(&explicit, RuleKind::Dnat).unwrap() {
        RuleShape::Dnat { listen: ListenMatch::Address(a), .. } => assert_eq!(a, "198.51.100.5"),
        other => panic!("unexpected {other:?}"),
    }
    assert!(matches!(
        rule_shape(&m, RuleKind::ForwardReturn).unwrap(),
        RuleShape::ForwardReturn { target_port: 22, .. }
    ));
    assert!(matches!(rule_shape(&m, RuleKind::Masquerade).unwrap(), RuleShape::Masquerade { .. }));
    let mut bad = mapping("x");
    bad.listen_ip = "nope".into();
    bad.target_ip = "nope".into();
    let e = rule_shape(&bad, RuleKind::ForwardIn).unwrap_err();
    assert_eq!(e, ShapeError::ListenIp);
    assert_eq!(e.message(), "listen_ip: invalid IP address syntax");
    bad.listen_ip = "::".into();
    assert_eq!(rule_shape(&bad, RuleKind::ForwardIn).unwrap_err(), ShapeError::TargetIp);
}

#[test]
fn unspecified_addresses_and_families() {
    assert!(is_unspecified("0.0.0.0"));
    assert!(is_unspecified("::"));
    assert!(is_unspecified("0:0::0"));
    assert!(!is_unspecified("0.0.0.1"));
    assert!(!is_unspecified("::1"));
    assert!(!is_unspecified("00.0.0.0"));
    assert_eq!(nfproto_byte(Family::V4), 2);
    assert_eq!(nfproto_byte(Family::V6), 10);
    let mut cfg = Config::default();
    assert_eq!(table_family(&cfg), TableFamily::Inet);
    cfg.nftables.family = "ip6".into();
    assert_eq!(table_family(&cfg), TableFamily::Ipv6);
}

#[test]
fn metrics_requests() {
    assert_eq!(request_target("GET /metrics?x=1 HTTP/1.1\r\nHost: a\r\n\r\n"), "/metrics");
    assert_eq!(request_target("GET /metrics HTTP/1.1"), "/metrics");
    assert_eq!(request_target(""), "");
    assert_eq!(request_target("GET"), "");
    assert!(wants_metrics("GET /metrics HTTP/1.1\r\n", "/metrics"));
    assert!(!wants_metrics("GET /other HTTP/1.1\r\n", "/metrics"));
    assert_eq!(
        ok_head("text/plain; version=0.0.4", 12),
        "HTTP/1.1 200 OK\r\nContent-Type: text/plain; version=0.0.4\r\nContent-Length: 12\r\nConnection: close\r\n\r\n"
    );
    assert!(NOT_FOUND_RESPONSE.starts_with("HTTP/1.1 404 Not Found"));
}

#[test]
fn probe_planning() {
    let m = mapping("ssh");
    assert!(matches!(plan_probe(&m), ProbeStep::Tcp { ref ip, port: 22 } if ip == "192.0.2.11"));
    let mut u = mapping("dns");
    u.protocol = Protocol::Udp;
    u.target_ip = "fd00::1".into();
    assert!(matches!(plan_probe(&u), ProbeStep::Icmp { v6: true, .. }));
    let mut bad = mapping("bad");
    bad.target_ip = "host".into();
    match plan_probe(&bad) {
        ProbeStep::Done(r) => {
            assert_eq!(r.mapping_id, "bad");
            assert!(r.latency.is_none());
            assert_eq!(r.method, "tcp");
            assert_eq!(r.error.as_deref(), Some("invalid target_ip host"));
        }
        other => panic!("unexpected {other:?}"),
    }
    let ok = tcp_result("a".into(), Ok(std::time::Duration::from_millis(3)));
    assert_eq!(ok.latency, Some(std::time::Duration::from_millis(3)));
    assert!(ok.error.is_none());
    let refused = tcp_result("a".into(), Err("refused".into()));
    assert_eq!(refused.error.as_deref(), Some("refused"));
    let silent = icmp_result("a".into(), None);
    assert_eq!(silent.method, "icmp");
    assert_eq!(silent.error.as_deref(), Some("no reply"));
    assert_eq!(ping_args(0, false, false, "1.1.1.1"), vec!["-c", "1", "-W", "1", "1.1.1.1"]);
    assert_eq!(ping_args(2, true, false, "::1"), vec!["-c", "1", "-W", "2", "-6", "::1"]);
    assert_eq!(ping_args(5, true, true, "::1"), vec!["-c", "1", "-t", "5", "::1"]);
}

#[test]
fn ufw_commands() {
    let r = Rule { protocol: "tcp".into(), target_ip: "192.0.2.10".into(), target_port: 80 };
    let args = route_args(&r, true);
    assert_eq!(&args[..4], &["--force", "route", "delete", "allow"]);
    assert_eq!(args.len(), 12);
    assert_eq!(route_args(&r, false)[2], "allow");
    let step = step_name("adding", &r);
    assert!(step.starts_with("adding UFW rule ufw route allow proto tcp to 192.0.2.10 port 80 comment NPorter:"));
    assert_eq!(failure_message("listing UFW rules", " out \n", "\terr "), "listing UFW rules failed: outerr");
}

#[test]
fn renaming_keeps_every_rule() {
    let mut cfg = Config::default();
    cfg.mappings.push(mapping("ssh"));
    let on_kernel = observed_all(&cfg);
    cfg.mappings[0].name = "Secure shell".into();
    cfg.mappings[0].description = "jump host".into();
    let p = apply(&cfg, &on_kernel);
    assert!(p.add.is_empty() && p.delete.is_empty());
    assert_eq!(p.kept, 4);
    cfg.mappings[0].target_port = 2222;
    let p = apply(&cfg, &on_kernel);
    assert_eq!((p.add.len(), p.delete.len(), p.kept), (4, 4, 0));
}
