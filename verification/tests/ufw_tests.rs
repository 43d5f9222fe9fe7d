use nporter::model::{Config, Mapping, Protocol};
use nporter::ufw::{build_plan, desired_rules, parse_added, parse_added_line, Rule};

fn rule(port: u16) -> Rule {
    Rule {
        protocol: "tcp".into(),
        target_ip: "192.0.2.10".into(),
        target_port: port,
    }
}

#[test]
fn parses_only_owned_route_rules() {
    let owned = rule(80);
    let output = format!(
        "Added user rules (see 'ufw status' for running firewall):\n\
         ufw allow 22/tcp\n\
         {}\n\
         ufw route allow proto udp to 192.0.2.11 port 53 comment 'other'\n",
        owned.display_command()
    );
    assert_eq!(parse_added(&output), vec![owned]);
}

#[test]
fn plans_add_delete_and_keep() {
    let plan = build_plan(vec![rule(80), rule(81)], vec![rule(80), rule(82)]);
    assert_eq!(plan.kept, 1);
    assert_eq!(plan.add, vec![rule(81)]);
    assert_eq!(plan.delete, vec![rule(82)]);
}

#[test]
fn desired_rules_include_only_enabled_mappings() {
    let mut cfg = Config::default();
    cfg.mappings.push(Mapping {
        id: "web".into(),
        name: String::new(),
        protocol: Protocol::Tcp,
        listen_ip: "0.0.0.0".into(),
        listen_port: 8080,
        target_ip: "192.0.2.10".into(),
        target_port: 80,
        enabled: true,
        masquerade: true,
        description: String::new(),
    });
    let mut disabled = cfg.mappings[0].clone();
    disabled.id = "off".into();
    disabled.enabled = false;
    cfg.mappings.push(disabled);
    assert_eq!(desired_rules(&cfg), vec![rule(80)]);
}

#[test]
fn desired_rules_deduplicate_shared_targets() {
    let mut cfg = Config::default();
    let mapping = Mapping {
        id: "a".into(),
        name: String::new(),
        protocol: Protocol::Tcp,
        listen_ip: "0.0.0.0".into(),
        listen_port: 8080,
        target_ip: "192.0.2.10".into(),
        target_port: 80,
        enabled: true,
        masquerade: true,
        description: String::new(),
    };
    cfg.mappings.push(mapping.clone());
    let mut shared = mapping;
    shared.id = "b".into();
    shared.listen_port = 8081;
    cfg.mappings.push(shared);
    assert_eq!(desired_rules(&cfg), vec![rule(80)]);
}

#[test]
fn display_and_args() {
    let r = rule(80);
    let c = r.comment();
    assert!(c.starts_with("NPorter:"));
    assert_eq!(c.len(), "NPorter:".len() + 16);
    assert_eq!(
        r.display_command(),
        format!("ufw route allow proto tcp to 192.0.2.10 port 80 comment {c}")
    );
    let args = r.args();
    assert_eq!(args.len(), 9);
    assert_eq!(args[0], "allow");
    assert_eq!(args[6], "80");
    assert_eq!(args[8], c);
    assert_ne!(rule(81).comment(), c);
}

#[test]
fn parses_lines_with_quotes_and_order() {
    let r = rule(443);
    let c = r.comment();
    let quoted = format!("ufw route allow proto tcp to 192.0.2.10 port 443 comment '{c}'");
    assert_eq!(parse_added_line(&quoted), Some(r.clone()));
    let reordered = format!("ufw route allow to 192.0.2.10 proto tcp comment \"{c}\" port +443");
    assert_eq!(parse_added_line(&reordered), Some(r.clone()));
    let wrong = format!("ufw route allow proto tcp to 192.0.2.10 port 444 comment {c}");
    assert_eq!(parse_added_line(&wrong), None);
    let bad_key = format!("ufw route allow proto tcp to 192.0.2.10 from 443 comment {c}");
    assert_eq!(parse_added_line(&bad_key), None);
    let bad_port = format!("ufw route allow proto tcp to 192.0.2.10 port 70000 comment {c}");
    assert_eq!(parse_added_line(&bad_port), None);
    let crlf = format!("{}\r\n", r.display_command());
    assert_eq!(parse_added(&crlf), vec![r]);
}

#[test]
fn desired_rules_sorted() {
    let mut cfg = Config::default();
    let mk = |id: &str, proto: Protocol, ip: &str, port: u16| Mapping {
        id: id.into(),
        name: String::new(),
        protocol: proto,
        listen_ip: "0.0.0.0".into(),
        listen_port: port,
        target_ip: ip.into(),
        target_port: port,
        enabled: true,
        masquerade: false,
        description: String::new(),
    };
    cfg.mappings.push(mk("a", Protocol::Udp, "192.0.2.1", 53));
    cfg.mappings.push(mk("b", Protocol::Tcp, "192.0.2.2", 80));
    cfg.mappings.push(mk("c", Protocol::Tcp, "192.0.2.10", 80));
    cfg.mappings.push(mk("d", Protocol::Tcp, "192.0.2.2", 22));
    let got: Vec<(String, String, u16)> = desired_rules(&cfg)
        .into_iter()
        .map(|r| (r.protocol, r.target_ip, r.target_port))
        .collect();
    assert_eq!(
        got,
        vec![
            ("tcp".into(), "192.0.2.10".into(), 80),
            ("tcp".into(), "192.0.2.2".into(), 22),
            ("tcp".into(), "192.0.2.2".into(), 80),
            ("udp".into(), "192.0.2.1".into(), 53),
        ]
    );
}
