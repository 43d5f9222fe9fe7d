use nporter::model::{Config, Mapping, Protocol};
use nporter::nft::fnv1a;
use nporter::nft::ruleset::{
    content_hash, desired_rules, identity_comment, is_safe_id, mapping_kinds, parse_identity,
    render_ruleset, RuleKind,
};

fn cfg_with(m: Mapping) -> Config {
    let mut c = Config::default();
    c.mappings.push(m);
    c
}

fn base(id: &str) -> Mapping {
    Mapping {
        id: id.into(),
        name: String::new(),
        protocol: Protocol::Tcp,
        listen_ip: "0.0.0.0".into(),
        listen_port: 10022,
        target_ip: "192.0.2.11".into(),
        target_port: 22,
        enabled: true,
        masquerade: true,
        description: String::new(),
    }
}

#[test]
fn v4_rule_shapes() {
    let rules = desired_rules(&cfg_with(base("ssh"))).unwrap();
    // dnat + forward-in + forward-return + masquerade
    assert_eq!(rules.len(), 4);
    let dnat = rules.iter().find(|r| r.kind == RuleKind::Dnat).unwrap();
    assert!(dnat.expr.contains("dnat ip to 192.0.2.11:22"));
    assert!(dnat.expr.contains("tcp dport 10022"));
    assert!(dnat.expr.contains("meta nfproto ipv4")); // wildcard listen pins family
    // forward counters carry no accept verdict
    let fin = rules.iter().find(|r| r.kind == RuleKind::ForwardIn).unwrap();
    assert!(fin.expr.contains("counter"));
    assert!(!fin.expr.contains("accept"));
    let fret = rules.iter().find(|r| r.kind == RuleKind::ForwardReturn).unwrap();
    assert!(fret.expr.contains("saddr 192.0.2.11"));
    assert!(fret.expr.contains("sport 22 counter"));
    assert!(!fret.expr.contains("accept"));
}

#[test]
fn v6_uses_ip6_and_brackets() {
    let mut m = base("web");
    m.listen_ip = "::".into();
    m.target_ip = "fd00::1".into();
    m.target_port = 80;
    let rules = desired_rules(&cfg_with(m)).unwrap();
    let dnat = rules.iter().find(|r| r.kind == RuleKind::Dnat).unwrap();
    assert!(dnat.expr.contains("dnat ip6 to [fd00::1]:80"), "{}", dnat.expr);
}

#[test]
fn masquerade_off_and_explicit_listen() {
    let mut m = base("svc");
    m.masquerade = false;
    m.listen_ip = "198.51.100.5".into();
    let rules = desired_rules(&cfg_with(m)).unwrap();
    assert_eq!(rules.len(), 3); // no masquerade
    let dnat = rules.iter().find(|r| r.kind == RuleKind::Dnat).unwrap();
    assert!(dnat.expr.contains("ip daddr 198.51.100.5"));
    assert!(!dnat.expr.contains("nfproto")); // explicit listen, no wildcard pin
}

#[test]
fn rejects_unsafe_id() {
    let mut m = base("bad");
    m.id = "bad id!".into();
    assert!(desired_rules(&cfg_with(m)).is_err());
}

#[test]
fn full_rule_texts() {
    let rules = desired_rules(&cfg_with(base("ssh"))).unwrap();
    let texts: Vec<(String, RuleKind, String)> =
        rules.into_iter().map(|r| (r.mapping_id, r.kind, r.expr)).collect();
    assert_eq!(
        texts,
        vec![
            (
                "ssh".to_string(),
                RuleKind::Dnat,
                "meta nfproto ipv4 tcp dport 10022 counter dnat ip to 192.0.2.11:22 comment \"nporter:v1 id=ssh kind=dnat\"".to_string()
            ),
            (
                "ssh".to_string(),
                RuleKind::Masquerade,
                "ip daddr 192.0.2.11 masquerade comment \"nporter:v1 id=ssh kind=masquerade\"".to_string()
            ),
            (
                "ssh".to_string(),
                RuleKind::ForwardIn,
                "ip daddr 192.0.2.11 tcp dport 22 counter comment \"nporter:v1 id=ssh kind=forward-in\"".to_string()
            ),
            (
                "ssh".to_string(),
                RuleKind::ForwardReturn,
                "ip saddr 192.0.2.11 tcp sport 22 counter comment \"nporter:v1 id=ssh kind=forward-return\"".to_string()
            ),
        ]
    );
}

#[test]
fn rules_sorted_by_id_then_kind_and_skip_disabled() {
    let mut c = Config::default();
    let mut b = base("b");
    b.masquerade = false;
    c.mappings.push(b);
    let mut a = base("a");
    a.listen_port = 1;
    c.mappings.push(a);
    let mut off = base("0off");
    off.enabled = false;
    c.mappings.push(off);
    let rules = desired_rules(&c).unwrap();
    let keys: Vec<(String, RuleKind)> = rules.into_iter().map(|r| (r.mapping_id, r.kind)).collect();
    assert_eq!(
        keys,
        vec![
            ("a".into(), RuleKind::Dnat),
            ("a".into(), RuleKind::Masquerade),
            ("a".into(), RuleKind::ForwardIn),
            ("a".into(), RuleKind::ForwardReturn),
            ("b".into(), RuleKind::Dnat),
            ("b".into(), RuleKind::ForwardIn),
            ("b".into(), RuleKind::ForwardReturn),
        ]
    );
}

#[test]
fn disabled_unsafe_mapping_is_ignored() {
    let mut m = base("bad");
    m.id = "bad id!".into();
    m.enabled = false;
    assert!(desired_rules(&cfg_with(m)).unwrap().is_empty());
}

#[test]
fn render_groups_by_chain() {
    let mut m = base("ssh");
    m.masquerade = false;
    let text = render_ruleset(&cfg_with(m)).unwrap();
    assert_eq!(
        text,
        "table inet nporter {\n  chain prerouting {\n    type nat hook prerouting priority dstnat; policy accept;\n    meta nfproto ipv4 tcp dport 10022 counter dnat ip to 192.0.2.11:22 comment \"nporter:v1 id=ssh kind=dnat\"\n  }\n\n  chain postrouting {\n    type nat hook postrouting priority srcnat; policy accept;\n  }\n\n  chain forward {\n    type filter hook forward priority filter; policy accept;\n    ip daddr 192.0.2.11 tcp dport 22 counter comment \"nporter:v1 id=ssh kind=forward-in\"\n    ip saddr 192.0.2.11 tcp sport 22 counter comment \"nporter:v1 id=ssh kind=forward-return\"\n  }\n}\n"
    );
}

fn reference_fnv1a(s: &str) -> u64 {
    let mut h: u64 = 0xcbf2_9ce4_8422_2325;
    for b in s.bytes() {
        h ^= b as u64;
        h = h.wrapping_mul(0x0000_0100_0000_01b3);
    }
    h
}

#[test]
fn hashes() {
    assert_eq!(fnv1a(""), 0xcbf2_9ce4_8422_2325);
    assert_eq!(fnv1a("a"), 0xaf63dc4c8601ec8c);
    assert_eq!(fnv1a("tcp|0.0.0.0|10022|192.0.2.11|22"), reference_fnv1a("tcp|0.0.0.0|10022|192.0.2.11|22"));
    let m = base("ssh");
    assert_eq!(
        content_hash(&m),
        format!("{:016x}", reference_fnv1a("tcp|0.0.0.0|10022|192.0.2.11|22"))
    );
    assert_eq!(content_hash(&m).len(), 16);
}

#[test]
fn identity_roundtrip() {
    let c = identity_comment("ssh", RuleKind::ForwardIn, "00ff");
    assert_eq!(c, "nporter:v1 id=ssh kind=forward-in h=00ff");
    assert_eq!(
        parse_identity(&c),
        Some(("ssh".to_string(), RuleKind::ForwardIn, "00ff".to_string()))
    );
    assert_eq!(parse_identity("other id=x kind=dnat"), None);
    assert_eq!(parse_identity("nporter:v1 id=x kind=bogus h=1"), None);
    assert_eq!(
        parse_identity("nporter:v1 kind=dnat id=x"),
        Some(("x".to_string(), RuleKind::Dnat, String::new()))
    );
}

#[test]
fn kinds_and_ids() {
    let mut m = base("x");
    assert_eq!(
        mapping_kinds(&m),
        vec![RuleKind::Dnat, RuleKind::ForwardIn, RuleKind::ForwardReturn, RuleKind::Masquerade]
    );
    m.masquerade = false;
    assert_eq!(mapping_kinds(&m), vec![RuleKind::Dnat, RuleKind::ForwardIn, RuleKind::ForwardReturn]);
    for k in [RuleKind::Dnat, RuleKind::Masquerade, RuleKind::ForwardIn, RuleKind::ForwardReturn] {
        assert_eq!(RuleKind::parse(k.as_str()), Some(k));
    }
    assert_eq!(RuleKind::parse("forward"), None);
    assert!(is_safe_id("web-1.a_b"));
    assert!(!is_safe_id("-web"));
    assert!(!is_safe_id(""));
    assert!(!is_safe_id("bad id"));
}
