//! Configuration data model.

use vstd::prelude::*;

use crate::text::{ascii_lower, debug_text, owned, spec_debug_text, str_eq, to_ascii_lower};

verus! {

/// Comment marker stamped onto every nftables rule we own, so we can identify
/// and reconcile our rules without touching anyone else's.
pub const COMMENT_PREFIX: &'static str = "nporter:v1";

#[derive(Debug, Clone, Copy, PartialEq, Eq, Structural)]
pub enum Protocol {
    Tcp,
    Udp,
}

pub open spec fn protocol_text(p: Protocol) -> Seq<char> {
    match p {
        Protocol::Tcp => seq!['t', 'c', 'p'],
        Protocol::Udp => seq!['u', 'd', 'p'],
    }
}

/// What parsing a protocol name gives: `tcp` or `udp` in any ASCII case.
pub open spec fn spec_parse_protocol(s: Seq<char>) -> Option<Protocol> {
    if ascii_lower(s) == protocol_text(Protocol::Tcp) {
        Some(Protocol::Tcp)
    } else if ascii_lower(s) == protocol_text(Protocol::Udp) {
        Some(Protocol::Udp)
    } else {
        None
    }
}

/// The message of a refused protocol name.
pub open spec fn protocol_error_text(s: Seq<char>) -> Seq<char> {
    "unsupported protocol "@ + spec_debug_text(ascii_lower(s)) + " (want tcp or udp)"@
}

impl Protocol {
    pub fn as_str(self) -> (r: &'static str)
        ensures
            r@ == protocol_text(self),
    {
        match self {
            Protocol::Tcp => {
                proof {
                    reveal_strlit("tcp");
                    assert("tcp"@ =~= protocol_text(Protocol::Tcp));
                }
                "tcp"
            },
            Protocol::Udp => {
                proof {
                    reveal_strlit("udp");
                    assert("udp"@ =~= protocol_text(Protocol::Udp));
                }
                "udp"
            },
        }
    }

    /// Parses `tcp` / `udp`, ignoring ASCII case.
    pub fn parse_text(s: &str) -> (r: Result<Protocol, String>)
        ensures
            match r {
                Ok(p) => spec_parse_protocol(s@) == Some(p),
                Err(msg) => spec_parse_protocol(s@) is None && msg@ == protocol_error_text(s@),
            },
    {
        let lower = to_ascii_lower(s);
        proof {
            reveal_strlit("tcp");
            reveal_strlit("udp");
            assert("tcp"@ =~= protocol_text(Protocol::Tcp));
            assert("udp"@ =~= protocol_text(Protocol::Udp));
        }
        if str_eq(lower.as_str(), "tcp") {
            Ok(Protocol::Tcp)
        } else if str_eq(lower.as_str(), "udp") {
            Ok(Protocol::Udp)
        } else {
            let mut msg = owned("unsupported protocol ");
            let shown = debug_text(lower.as_str());
            crate::text::append(&mut msg, shown.as_str());
            crate::text::append(&mut msg, " (want tcp or udp)");
            Err(msg)
        }
    }
}

impl std::str::FromStr for Protocol {
    type Err = String;

    fn from_str(s: &str) -> (r: Result<Self, Self::Err>)
        ensures
            match r {
                Ok(p) => spec_parse_protocol(s@) == Some(p),
                Err(msg) => spec_parse_protocol(s@) is None && msg@ == protocol_error_text(s@),
            },
    {
        Protocol::parse_text(s)
    }
}

/// A single port-forwarding rule.
#[derive(Debug, Clone)]
pub struct Mapping {
    pub id: String,
    pub name: String,
    pub protocol: Protocol,
    pub listen_ip: String,
    pub listen_port: u16,
    pub target_ip: String,
    pub target_port: u16,
    pub enabled: bool,
    pub masquerade: bool,
    pub description: String,
}

impl Mapping {
    /// A field-for-field copy.
    pub fn duplicate(&self) -> (r: Mapping)
        ensures
            r == *self,
    {
        Mapping {
            id: self.id.clone(),
            name: self.name.clone(),
            protocol: self.protocol,
            listen_ip: self.listen_ip.clone(),
            listen_port: self.listen_port,
            target_ip: self.target_ip.clone(),
            target_port: self.target_port,
            enabled: self.enabled,
            masquerade: self.masquerade,
            description: self.description.clone(),
        }
    }
}

#[derive(Debug, Clone)]
pub struct Config {
    pub nftables: NftablesConfig,
    pub ufw: UfwConfig,
    pub prometheus: PrometheusConfig,
    pub mappings: Vec<Mapping>,
}

#[derive(Debug, Clone)]
pub struct NftablesConfig {
    /// nftables family. We use `inet` for dual-stack (IPv4 + IPv6).
    pub family: String,
    pub table_name: String,
    pub enable_ip_forward: bool,
    pub default_masquerade: bool,
}

#[derive(Debug, Clone, Copy)]
pub struct UfwConfig {
    /// Reconcile UFW route allow rules for enabled mappings during apply.
    pub manage: bool,
}

#[derive(Debug, Clone)]
pub struct PrometheusConfig {
    pub enabled: bool,
    pub listen_address: String,
    pub path: String,
}

impl Default for NftablesConfig {
    fn default() -> (r: Self)
        ensures
            r.family@ == "inet"@,
            r.table_name@ == "nporter"@,
            r.enable_ip_forward,
            r.default_masquerade,
    {
        NftablesConfig {
            family: owned("inet"),
            table_name: owned("nporter"),
            enable_ip_forward: true,
            default_masquerade: true,
        }
    }
}

impl Default for UfwConfig {
    fn default() -> (r: Self)
        ensures
            !r.manage,
    {
        UfwConfig { manage: false }
    }
}

impl Default for PrometheusConfig {
    fn default() -> (r: Self)
        ensures
            !r.enabled,
            r.listen_address@ == "127.0.0.1:9090"@,
            r.path@ == "/metrics"@,
    {
        PrometheusConfig {
            enabled: false,
            listen_address: owned("127.0.0.1:9090"),
            path: owned("/metrics"),
        }
    }
}

/// The configuration a missing or empty file stands for.
pub open spec fn is_default_config(c: Config) -> bool {
    &&& c.nftables.family@ == "inet"@
    &&& c.nftables.table_name@ == "nporter"@
    &&& c.nftables.enable_ip_forward
    &&& c.nftables.default_masquerade
    &&& !c.ufw.manage
    &&& !c.prometheus.enabled
    &&& c.prometheus.listen_address@ == "127.0.0.1:9090"@
    &&& c.prometheus.path@ == "/metrics"@
    &&& c.mappings@.len() == 0
}

impl Default for Config {
    fn default() -> (r: Self)
        ensures
            is_default_config(r),
    {
        Config {
            nftables: NftablesConfig::default(),
            ufw: UfwConfig::default(),
            prometheus: PrometheusConfig::default(),
            mappings: Vec::new(),
        }
    }
}

/// The value a missing `enabled` field of a mapping takes.
pub fn default_true() -> (r: bool)
    ensures
        r,
{
    true
}

} // verus!
