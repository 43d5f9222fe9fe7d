use nporter::model::{default_true, Config, Protocol};

#[test]
fn protocol_parse() {
    assert_eq!("TCP".parse::<Protocol>().unwrap(), Protocol::Tcp);
    assert!("sctp".parse::<Protocol>().is_err());
}

#[test]
fn protocol_parse_details() {
    assert_eq!("uDp".parse::<Protocol>().unwrap(), Protocol::Udp);
    assert_eq!(
        "SCTP".parse::<Protocol>().unwrap_err(),
        "unsupported protocol \"sctp\" (want tcp or udp)"
    );
    assert_eq!(Protocol::Tcp.as_str(), "tcp");
    assert_eq!(Protocol::Udp.as_str(), "udp");
}

#[test]
fn defaults() {
    let c = Config::default();
    assert_eq!(c.nftables.family, "inet");
    assert_eq!(c.nftables.table_name, "nporter");
    assert!(c.nftables.enable_ip_forward);
    assert!(c.nftables.default_masquerade);
    assert!(!c.ufw.manage);
    assert!(!c.prometheus.enabled);
    assert_eq!(c.prometheus.listen_address, "127.0.0.1:9090");
    assert_eq!(c.prometheus.path, "/metrics");
    assert!(c.mappings.is_empty());
    assert!(default_true());
}
