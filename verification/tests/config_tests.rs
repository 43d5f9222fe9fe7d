use nporter::config::{validate, ConfigError, Family};
use nporter::ip::ip_family;
use nporter::model::{Config, Mapping, Protocol};

fn sample() -> Mapping {
    Mapping {
        id: "r1".into(),
        name: "Rule 1".into(),
        protocol: Protocol::Tcp,
        listen_ip: "0.0.0.0".into(),
        listen_port: 8080,
        target_ip: "192.0.2.10".into(),
        target_port: 80,
        enabled: true,
        masquerade: true,
        description: String::new(),
    }
}

#[test]
fn rejects_mixed_family() {
    let mut m = sample();
    m.target_ip = "fd00::1".into();
    let mut cfg = Config::default();
    cfg.mappings.push(m);
    assert!(validate(&cfg).is_err());
}

#[test]
fn rejects_listen_conflict() {
    let mut cfg = Config::default();
    let mut a = sample();
    a.id = "a".into();
    let mut b = sample();
    b.id = "b".into();
    cfg.mappings.push(a);
    cfg.mappings.push(b);
    assert!(validate(&cfg).is_err());
}

#[test]
fn v6_mapping_ok_on_inet() {
    let mut m = sample();
    m.listen_ip = "::".into();
    m.target_ip = "fd00::1".into();
    let mut cfg = Config::default();
    cfg.mappings.push(m);
    validate(&cfg).unwrap();
}

#[test]
fn validate_accepts_sample_and_default() {
    let mut cfg = Config::default();
    validate(&cfg).unwrap();
    cfg.mappings.push(sample());
    validate(&cfg).unwrap();
    assert_eq!(cfg.nftables.family, "inet");
}

#[test]
fn conflict_error_names_both_mappings() {
    let mut cfg = Config::default();
    let mut a = sample();
    a.id = "a".into();
    let mut b = sample();
    b.id = "b".into();
    cfg.mappings.push(a);
    cfg.mappings.push(b);
    let e = validate(&cfg).unwrap_err();
    assert_eq!(e.message(), "listen endpoint conflict: b conflicts with mapping a");
}

#[test]
fn same_listen_port_other_protocol_is_fine() {
    let mut cfg = Config::default();
    let mut a = sample();
    a.id = "a".into();
    let mut b = sample();
    b.id = "b".into();
    b.protocol = Protocol::Udp;
    cfg.mappings.push(a);
    cfg.mappings.push(b);
    validate(&cfg).unwrap();
}

#[test]
fn each_validation_error() {
    let with = |f: &dyn Fn(&mut Config)| {
        let mut cfg = Config::default();
        cfg.mappings.push(sample());
        f(&mut cfg);
        validate(&cfg).unwrap_err().message()
    };
    assert_eq!(with(&|c| c.nftables.family = String::new()), "nftables.family is required");
    assert_eq!(
        with(&|c| c.nftables.family = "bridge".into()),
        "nftables.family \"bridge\" is not supported (use inet, ip or ip6)"
    );
    assert_eq!(with(&|c| c.nftables.table_name = String::new()), "nftables.table_name is required");
    assert_eq!(with(&|c| c.prometheus.path = String::new()), "prometheus.path is required");
    assert_eq!(with(&|c| c.prometheus.path = "metrics".into()), "prometheus.path must start with /");
    assert_eq!(
        with(&|c| {
            c.prometheus.enabled = true;
            c.prometheus.listen_address = String::new();
        }),
        "prometheus.listen_address is required when enabled"
    );
    assert_eq!(with(&|c| c.mappings[0].id = String::new()), "mapping id is required");
    assert_eq!(with(&|c| c.mappings[0].listen_ip = String::new()), "mapping r1 listen_ip is required");
    assert_eq!(
        with(&|c| c.mappings[0].listen_ip = "1.2.3".into()),
        "mapping r1 listen_ip is invalid: 1.2.3"
    );
    assert_eq!(
        with(&|c| c.mappings[0].target_ip = "host".into()),
        "mapping r1 target_ip is invalid: host"
    );
    assert_eq!(
        with(&|c| c.mappings[0].target_ip = "fd00::1".into()),
        "mapping r1 mixes IPv4 and IPv6 (listen 0.0.0.0 / target fd00::1)"
    );
    assert_eq!(with(&|c| c.mappings[0].listen_port = 0), "mapping r1 listen_port must be 1-65535");
    assert_eq!(with(&|c| c.mappings[0].target_port = 0), "mapping r1 target_port must be 1-65535");
    assert_eq!(
        with(&|c| c.mappings[0].id = "bad id".into()),
        "mapping bad id id has unsupported characters (use [A-Za-z0-9._-], start alnum)"
    );
    assert_eq!(
        with(&|c| {
            let mut m = sample();
            m.listen_port = 9090;
            c.mappings.push(m);
        }),
        "duplicate mapping id: r1"
    );
    assert_eq!(
        with(&|c| {
            c.nftables.family = "ip".into();
            c.mappings[0].listen_ip = "::".into();
            c.mappings[0].target_ip = "fd00::1".into();
        }),
        "mapping r1 is IPv6 but nftables.family is ip"
    );
    assert_eq!(
        with(&|c| c.nftables.family = "ip6".into()),
        "mapping r1 is IPv4 but nftables.family is ip6"
    );
}

#[test]
fn family_follows_target() {
    let m = sample();
    assert_eq!(m.family().unwrap(), Family::V4);
    let mut v6 = sample();
    v6.target_ip = "2001:db8::7".into();
    assert_eq!(v6.family().unwrap(), Family::V6);
    let mut bad = sample();
    bad.target_ip = "999.1.1.1".into();
    assert!(matches!(bad.family(), Err(ConfigError::TargetIpInvalid { .. })));
}

#[test]
fn ip_text_grammar() {
    for ok4 in ["0.0.0.0", "192.0.2.10", "255.255.255.255", "10.0.0.1"] {
        assert_eq!(ip_family(ok4), Some(Family::V4), "{ok4}");
    }
    for ok6 in [
        "::",
        "::1",
        "fd00::1",
        "1:2:3:4:5:6:7:8",
        "1::",
        "1:2:3:4:5:6:7::",
        "::1:2:3:4:5:6:7",
        "::ffff:192.0.2.1",
        "1:2:3:4:5:6:1.2.3.4",
        "ABCD:ef01::0",
        "0000:0000::0001",
    ] {
        assert_eq!(ip_family(ok6), Some(Family::V6), "{ok6}");
    }
    for bad in [
        "",
        "1.2.3",
        "1.2.3.4.5",
        "256.1.1.1",
        "01.2.3.4",
        "1.2.3.4 ",
        "+1.2.3.4",
        ":::",
        "1:::2",
        "1:2:3:4:5:6:7:8:9",
        "1:2:3:4:5:6:7:8::",
        "1:2:3:4:5:6:7::8",
        "12345::",
        "1.2.3.4::",
        "::1.2.3.4:5",
        "1::2::3",
        "g::1",
        "1:2:3:4:5:6:7:1.2.3.4",
        "localhost",
    ] {
        assert_eq!(ip_family(bad), None, "{bad}");
    }
}

#[test]
fn ip_text_edge_cases() {
    let v4 = Some(Family::V4);
    let v6 = Some(Family::V6);
    let cases = [
        ("0.0.0.0", v4),
        ("1:2::3:4", v6),
        ("00ff::", v6),
        ("::0:0:0:0:0:0:0", v6),
        ("::0:0:0:0:0:0", v6),
        ("1.1.1.01", None),
        ("1.1.1.1.", None),
        (".1.1.1", None),
        ("a:b:c:d:e:f:1.2.3.4", v6),
        ("a:b:c:d:e:1.2.3.4", None),
        ("::1.2.3.4", v6),
        ("1::1.2.3.4", v6),
        ("[::1]", None),
        ("fe80::1%eth0", None),
    ];
    for (s, want) in cases {
        assert_eq!(ip_family(s), want, "{s}");
    }
}

// The config file's TOML form is written and read by the program's serde
// types, outside the library; here the config is validated and taken once
// through the library's own text form of a mapping, the edit form.
#[test]
fn validate_ok_and_roundtrip() {
    let mut cfg = Config::default();
    cfg.mappings.push(sample());
    validate(&cfg).unwrap();
    let mut app = nporter::tui::app::App::load("nporter.toml".into(), Ok(cfg));
    app.open_edit_form();
    app.commit_form();
    assert!(app.form.is_none());
    assert_eq!(app.cfg.mappings.len(), 1);
    assert_eq!(app.cfg.nftables.family, "inet");
    let m = &app.cfg.mappings[0];
    let s = sample();
    assert_eq!(
        (&m.id, &m.name, m.protocol, &m.listen_ip, m.listen_port),
        (&s.id, &s.name, s.protocol, &s.listen_ip, s.listen_port)
    );
    assert_eq!(
        (&m.target_ip, m.target_port, m.enabled, m.masquerade, &m.description),
        (&s.target_ip, s.target_port, s.enabled, s.masquerade, &s.description)
    );
    validate(&app.cfg).unwrap();
}
