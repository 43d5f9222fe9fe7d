use nporter::cli::{
    apply_text, list, load_or_create, mapping_index, parse_proto, probe_line, run, status_text,
    AddArgs, Commands, ConfigArgs, LoadFailure, LoadStep, Outcome, SetArgs,
};
use nporter::model::{Config, Mapping, Protocol};
use nporter::nft::{ApplyReport, ObservedRule, RuleKind};
use nporter::probe::ProbeResult;

fn mapping(id: &str, port: u16) -> Mapping {
    Mapping {
        id: id.into(),
        name: String::new(),
        protocol: Protocol::Tcp,
        listen_ip: "0.0.0.0".into(),
        listen_port: port,
        target_ip: "192.0.2.10".into(),
        target_port: 80,
        enabled: true,
        masquerade: true,
        description: String::new(),
    }
}

fn cfg_with(ids: &[&str]) -> Config {
    let mut c = Config::default();
    for (i, id) in ids.iter().enumerate() {
        c.mappings.push(mapping(id, 8000 + i as u16));
    }
    c
}

fn add_args(id: &str) -> AddArgs {
    AddArgs {
        id: id.into(),
        name: String::new(),
        proto: Protocol::Tcp,
        listen_ip: "0.0.0.0".into(),
        listen_port: 8080,
        target_ip: "192.0.2.10".into(),
        target_port: 80,
        enabled: true,
        masquerade: None,
        description: String::new(),
    }
}

fn saved(o: Outcome) -> (Config, String) {
    match o {
        Outcome::Done { save: Some(c), text } => (c, text),
        other => panic!("unexpected {other:?}"),
    }
}

fn printed(o: Outcome) -> String {
    match o {
        Outcome::Done { save: None, text } => text,
        other => panic!("unexpected {other:?}"),
    }
}

fn failed(o: Outcome) -> String {
    match o {
        Outcome::Failed(e) => e,
        other => panic!("unexpected {other:?}"),
    }
}

#[test]
fn list_output() {
    assert_eq!(list(&Config::default()), "no mappings\n");
    let mut c = cfg_with(&["web"]);
    c.mappings[0].enabled = false;
    assert_eq!(
        list(&c),
        "ID\tPROTO\tLISTEN\tTARGET\tSTATE\tMASQ\nweb\ttcp\t0.0.0.0:8000\t192.0.2.10:80\tdisabled\ttrue\n"
    );
    assert_eq!(printed(run(Commands::List, c)).lines().count(), 2);
}

#[test]
fn add_uses_default_masquerade_and_refuses_duplicates() {
    let mut c = cfg_with(&["a"]);
    c.nftables.default_masquerade = false;
    let (n, text) = saved(run(Commands::Add(add_args("web")), c));
    assert_eq!(text, "added: web\n");
    assert_eq!(n.mappings.len(), 2);
    assert_eq!(n.mappings[1].id, "web");
    assert!(!n.mappings[1].masquerade);
    let mut a = add_args("web2");
    a.masquerade = Some(true);
    let (n2, _) = saved(run(Commands::Add(a), n));
    assert!(n2.mappings[2].masquerade);
    assert_eq!(
        failed(run(Commands::Add(add_args("a")), n2)),
        "mapping id already exists: a"
    );
}

#[test]
fn set_changes_only_given_fields() {
    let c = cfg_with(&["a", "b"]);
    let args = SetArgs {
        id: "b".into(),
        name: Some("Bee".into()),
        proto: Some(Protocol::Udp),
        listen_ip: None,
        listen_port: Some(9999),
        target_ip: None,
        target_port: None,
        enabled: Some(false),
        masquerade: None,
        description: Some("desc".into()),
    };
    let (n, text) = saved(run(Commands::SetFields(args), c));
    assert_eq!(text, "updated: b\n");
    let m = &n.mappings[1];
    assert_eq!(m.name, "Bee");
    assert_eq!(m.protocol, Protocol::Udp);
    assert_eq!(m.listen_port, 9999);
    assert_eq!(m.listen_ip, "0.0.0.0");
    assert!(!m.enabled);
    assert!(m.masquerade);
    assert_eq!(m.description, "desc");
    assert_eq!(n.mappings[0].listen_port, 8000);
    let missing = SetArgs {
        id: "zz".into(),
        name: None,
        proto: None,
        listen_ip: None,
        listen_port: None,
        target_ip: None,
        target_port: None,
        enabled: None,
        masquerade: None,
        description: None,
    };
    assert_eq!(failed(run(Commands::SetFields(missing), n)), "mapping id not found: zz");
}

#[test]
fn enable_disable_masquerade() {
    let c = cfg_with(&["a"]);
    let (c, text) = saved(run(Commands::Disable { id: "a".into() }, c));
    assert_eq!(text, "updated: a enabled=false\n");
    assert!(!c.mappings[0].enabled);
    let (c, text) = saved(run(Commands::Enable { id: "a".into() }, c));
    assert_eq!(text, "updated: a enabled=true\n");
    assert!(c.mappings[0].enabled);
    let (c, text) = saved(run(Commands::Masquerade { id: "a".into(), enabled: false }, c));
    assert_eq!(text, "updated: a masquerade=false\n");
    assert!(!c.mappings[0].masquerade);
    assert_eq!(
        failed(run(Commands::Enable { id: "b".into() }, c)),
        "mapping id not found: b"
    );
}

#[test]
fn delete_removes_every_copy() {
    let mut c = cfg_with(&["a", "b"]);
    c.mappings.push(mapping("a", 9));
    let (n, text) = saved(run(Commands::Delete { id: "a".into() }, c));
    assert_eq!(text, "deleted: a\n");
    assert_eq!(n.mappings.len(), 1);
    assert_eq!(n.mappings[0].id, "b");
    assert_eq!(failed(run(Commands::Delete { id: "a".into() }, n)), "mapping id not found: a");
}

#[test]
fn add_then_delete_restores() {
    let c = cfg_with(&["a", "b"]);
    let (added, _) = saved(run(Commands::Add(add_args("new")), cfg_with(&["a", "b"])));
    let (back, _) = saved(run(Commands::Delete { id: "new".into() }, added));
    let before: Vec<_> = c.mappings.iter().map(|m| (m.id.clone(), m.listen_port)).collect();
    let after: Vec<_> = back.mappings.iter().map(|m| (m.id.clone(), m.listen_port)).collect();
    assert_eq!(before, after);
}

#[test]
fn config_shows_and_saves_only_on_change() {
    let c = cfg_with(&[]);
    let none = ConfigArgs {
        prometheus_enabled: None,
        prometheus_listen_address: None,
        prometheus_path: None,
    };
    assert_eq!(
        printed(run(Commands::Config(none), c)),
        "prometheus.enabled=false\nprometheus.listen_address=127.0.0.1:9090\nprometheus.path=/metrics\n"
    );
    let some = ConfigArgs {
        prometheus_enabled: Some(true),
        prometheus_listen_address: None,
        prometheus_path: Some("/m".into()),
    };
    let (n, text) = saved(run(Commands::Config(some), cfg_with(&[])));
    assert!(n.prometheus.enabled);
    assert_eq!(n.prometheus.path, "/m");
    assert_eq!(
        text,
        "prometheus.enabled=true\nprometheus.listen_address=127.0.0.1:9090\nprometheus.path=/m\n"
    );
}

#[test]
fn check_and_plan() {
    let c = cfg_with(&["web"]);
    assert_eq!(
        printed(run(Commands::Check, c)),
        "config: ok\nrules: 4 (buildable)\nmappings: 1\nnote: kernel state is checked by `apply` (netlink, atomic)\n"
    );
    let plan = printed(run(Commands::Plan, cfg_with(&["web"])));
    assert!(plan.starts_with(
        "desired rules: 4\n\n+ web dnat\n+ web masquerade\n+ web forward-in\n+ web forward-return\n\n--- ruleset ---\ntable inet nporter {\n"
    ));
    let mut bad = cfg_with(&["web"]);
    bad.mappings[0].id = "bad id".into();
    assert_eq!(
        failed(run(Commands::Check, bad)),
        "mapping bad id contains unsupported characters in its id"
    );
}

#[test]
fn kernel_and_terminal_commands_hand_back_work() {
    assert!(matches!(run(Commands::Apply, cfg_with(&["a"])), Outcome::Apply(_)));
    assert!(matches!(run(Commands::Status, cfg_with(&["a"])), Outcome::Status(_)));
    assert!(matches!(run(Commands::Daemon, cfg_with(&["a"])), Outcome::Daemon(_)));
    assert!(matches!(run(Commands::Tui, cfg_with(&["a"])), Outcome::Tui));
}

#[test]
fn probe_targets() {
    match run(Commands::Probe { id: None }, cfg_with(&["a", "b"])) {
        Outcome::Probe(v) => assert_eq!(v.len(), 2),
        other => panic!("unexpected {other:?}"),
    }
    match run(Commands::Probe { id: Some("b".into()) }, cfg_with(&["a", "b"])) {
        Outcome::Probe(v) => {
            assert_eq!(v.len(), 1);
            assert_eq!(v[0].id, "b");
        }
        other => panic!("unexpected {other:?}"),
    }
    assert_eq!(printed(run(Commands::Probe { id: None }, cfg_with(&[]))), "no mappings\n");
    assert_eq!(
        failed(run(Commands::Probe { id: Some("z".into()) }, cfg_with(&["a"]))),
        "mapping id not found: z"
    );
}

#[test]
fn index_of_first_match() {
    let mut c = cfg_with(&["a", "b"]);
    c.mappings.push(mapping("b", 1));
    assert_eq!(mapping_index(&c, "b"), Some(1));
    assert_eq!(mapping_index(&c, "a"), Some(0));
    assert_eq!(mapping_index(&c, "c"), None);
}

#[test]
fn load_or_create_decides() {
    assert!(matches!(load_or_create(Ok(cfg_with(&["a"]))), LoadStep::Loaded(c) if c.mappings.len() == 1));
    match load_or_create(Err(LoadFailure::Missing)) {
        LoadStep::Create(c) => {
            assert!(c.mappings.is_empty());
            assert_eq!(c.nftables.table_name, "nporter");
        }
        other => panic!("unexpected {other:?}"),
    }
    assert!(matches!(load_or_create(Err(LoadFailure::Other("parse".into()))), LoadStep::Failed(e) if e == "parse"));
}

#[test]
fn proto_values() {
    assert_eq!(parse_proto("UDP"), Ok(Protocol::Udp));
    assert_eq!(
        parse_proto("icmp"),
        Err("unsupported protocol \"icmp\" (want tcp or udp)".to_string())
    );
}

#[test]
fn report_texts() {
    let r = ApplyReport { added: 1, deleted: 2, kept: 3 };
    assert_eq!(apply_text(&r), "apply: ok (added=1, deleted=2, kept=3)\n");
    let c = cfg_with(&["a"]);
    let live = Ok(vec![ObservedRule { mapping_id: "a".into(), kind: RuleKind::Dnat }]);
    assert_eq!(
        status_text(&c, &live),
        "mappings: 1\ntable: inet nporter\nlive rules: 1\n  a dnat\n"
    );
    let down: Result<Vec<ObservedRule>, String> = Err("no netlink".into());
    assert_eq!(
        status_text(&c, &down),
        "mappings: 1\ntable: inet nporter\nlive rules: unavailable (no netlink)\n"
    );
}

#[test]
fn probe_lines() {
    let m = mapping("a", 1);
    let ok = ProbeResult {
        mapping_id: "a".into(),
        latency: Some(std::time::Duration::from_millis(12)),
        method: "tcp",
        error: None,
    };
    assert_eq!(probe_line(&m, &ok, "12ms"), "a\t192.0.2.10:80\t12ms (tcp)\n");
    let bad = ProbeResult { mapping_id: "a".into(), latency: None, method: "icmp", error: Some("no reply".into()) };
    assert_eq!(probe_line(&m, &bad, "\u{2717}"), "a\t192.0.2.10:80\tunreachable (icmp): no reply\n");
    let none = ProbeResult { mapping_id: "a".into(), latency: None, method: "tcp", error: None };
    assert_eq!(probe_line(&m, &none, "\u{2717}"), "a\t192.0.2.10:80\tunreachable\n");
}
