//! The structure of each kernel rule we install: which matches, counters and
//! NAT statements it holds, for the netlink front end to encode.

use vstd::prelude::*;

use crate::config::Family;
use crate::ip::{ip_family, spec_ip_family};
use crate::model::{Config, Mapping, Protocol};
use crate::nft::ruleset::RuleKind;
use crate::text::{chars_of, str_eq};

verus! {

/// The address family of our table.
#[derive(Debug, Clone, Copy, PartialEq, Eq, Structural)]
pub enum TableFamily {
    Ipv4,
    Ipv6,
    Inet,
}

/// The table family a config names: `ip` and `ip6` are single-family,
/// anything else is dual-stack `inet`.
pub open spec fn spec_table_family(fam: Seq<char>) -> TableFamily {
    if fam == "ip"@ {
        TableFamily::Ipv4
    } else if fam == "ip6"@ {
        TableFamily::Ipv6
    } else {
        TableFamily::Inet
    }
}

pub fn table_family(cfg: &Config) -> (r: TableFamily)
    ensures
        r == spec_table_family(cfg.nftables.family@),
{
    let fam = cfg.nftables.family.as_str();
    if str_eq(fam, "ip") {
        TableFamily::Ipv4
    } else if str_eq(fam, "ip6") {
        TableFamily::Ipv6
    } else {
        TableFamily::Inet
    }
}

/// The `NFPROTO_*` number of a family, as an nfproto meta match compares it.
pub fn nfproto_byte(f: Family) -> (b: u8)
    ensures
        b == match f {
            Family::V4 => 2u8,
            Family::V6 => 10u8,
        },
{
    match f {
        Family::V4 => 2,
        Family::V6 => 10,
    }
}

/// An address text that parses and names the unspecified address (all
/// zeros): every digit of it is `0`.
pub open spec fn spec_unspecified(s: Seq<char>) -> bool {
    &&& spec_ip_family(s) is Some
    &&& forall|i: int| 0 <= i < s.len() ==> (#[trigger] s[i] == '0' || s[i] == ':' || s[i] == '.')
}

/// Whether `s` is an address that stands for "any address".
pub fn is_unspecified(s: &str) -> (b: bool)
    ensures
        b == spec_unspecified(s@),
{
    if ip_family(s).is_none() {
        return false;
    }
    let cs = chars_of(s);
    let mut i: usize = 0;
    while i < cs.len()
        invariant
            cs@ == s@,
            i <= cs.len(),
            forall|q: int| 0 <= q < i ==> (#[trigger] cs@[q] == '0' || cs@[q] == ':' || cs@[q] == '.'),
        decreases cs.len() - i,
    {
        let c = cs[i];
        if !(c == '0' || c == ':' || c == '.') {
            return false;
        }
        i = i + 1;
    }
    true
}

/// How a DNAT rule matches the listen side.
#[derive(Debug)]
pub enum ListenMatch {
    /// Any address of this family (an nfproto match), for a wildcard listen
    /// address.
    AnyOf(Family),
    /// This destination address.
    Address(String),
}

/// What one of our kernel rules holds, in order.
#[derive(Debug)]
pub enum RuleShape {
    /// Prerouting: the listen match, the destination port, a counter, then
    /// DNAT to the target.
    Dnat {
        listen: ListenMatch,
        listen_port: u16,
        protocol: Protocol,
        family: Family,
        target: String,
        target_port: u16,
    },
    /// Postrouting: destination address, then masquerade.
    Masquerade { target: String },
    /// Forward: destination address and port, then a counter.
    ForwardIn { target: String, target_port: u16, protocol: Protocol },
    /// Forward, return traffic: source address and port, then a counter.
    ForwardReturn { target: String, target_port: u16, protocol: Protocol },
}

/// Why a rule cannot be built.
#[derive(Debug, Clone, Copy, PartialEq, Eq, Structural)]
pub enum ShapeError {
    /// The listen address does not parse.
    ListenIp,
    /// The target address does not parse.
    TargetIp,
}

impl ShapeError {
    pub fn message(self) -> (r: &'static str)
        ensures
            r@ == match self {
                ShapeError::ListenIp => "listen_ip: invalid IP address syntax"@,
                ShapeError::TargetIp => "target_ip: invalid IP address syntax"@,
            },
    {
        match self {
            ShapeError::ListenIp => "listen_ip: invalid IP address syntax",
            ShapeError::TargetIp => "target_ip: invalid IP address syntax",
        }
    }
}

/// The rule of kind `kind` for mapping `m`; both addresses must parse
/// (the listen address is checked first).
pub open spec fn spec_rule_shape(m: Mapping, kind: RuleKind) -> Result<RuleShape, ShapeError> {
    if spec_ip_family(m.listen_ip@) is None {
        Err(ShapeError::ListenIp)
    } else if spec_ip_family(m.target_ip@) is None {
        Err(ShapeError::TargetIp)
    } else {
        let fam = spec_ip_family(m.target_ip@).unwrap();
        Ok(
            match kind {
                RuleKind::Dnat => RuleShape::Dnat {
                    listen: if spec_unspecified(m.listen_ip@) {
                        ListenMatch::AnyOf(fam)
                    } else {
                        ListenMatch::Address(m.listen_ip)
                    },
                    listen_port: m.listen_port,
                    protocol: m.protocol,
                    family: fam,
                    target: m.target_ip,
                    target_port: m.target_port,
                },
                RuleKind::Masquerade => RuleShape::Masquerade { target: m.target_ip },
                RuleKind::ForwardIn => RuleShape::ForwardIn {
                    target: m.target_ip,
                    target_port: m.target_port,
                    protocol: m.protocol,
                },
                RuleKind::ForwardReturn => RuleShape::ForwardReturn {
                    target: m.target_ip,
                    target_port: m.target_port,
                    protocol: m.protocol,
                },
            },
        )
    }
}

/// Once both addresses of a mapping parse, every rule kind has a shape, and
/// the shape carries the mapping's own fields: DNAT matches the listen side
/// (the listen address itself, or only the target's family for an
/// unspecified listen address) and rewrites to the target address and port;
/// masquerade and both forward counters match the target address (never the
/// listen address), the forward counters on the target port and protocol.
pub proof fn lemma_rule_shape_fields(m: Mapping, kind: RuleKind)
    requires
        spec_ip_family(m.listen_ip@) is Some,
        spec_ip_family(m.target_ip@) is Some,
    ensures
        spec_rule_shape(m, kind) is Ok,
        match spec_rule_shape(m, kind) {
            Ok(RuleShape::Dnat { listen, listen_port, protocol, family, target, target_port }) => {
                &&& kind == RuleKind::Dnat
                &&& spec_ip_family(m.target_ip@) == Some(family)
                &&& listen_port == m.listen_port
                &&& protocol == m.protocol
                &&& target@ == m.target_ip@
                &&& target_port == m.target_port
                &&& match listen {
                    ListenMatch::AnyOf(f) => f == family && spec_unspecified(m.listen_ip@),
                    ListenMatch::Address(a) => a@ == m.listen_ip@ && !spec_unspecified(
                        m.listen_ip@,
                    ),
                }
            },
            Ok(RuleShape::Masquerade { target }) => {
                &&& kind == RuleKind::Masquerade
                &&& target@ == m.target_ip@
            },
            Ok(RuleShape::ForwardIn { target, target_port, protocol }) => {
                &&& kind == RuleKind::ForwardIn
                &&& target@ == m.target_ip@
                &&& target_port == m.target_port
                &&& protocol == m.protocol
            },
            Ok(RuleShape::ForwardReturn { target, target_port, protocol }) => {
                &&& kind == RuleKind::ForwardReturn
                &&& target@ == m.target_ip@
                &&& target_port == m.target_port
                &&& protocol == m.protocol
            },
            Err(_) => false,
        },
{
}

/// Builds the structure of the rule of kind `kind` for mapping `m`.
pub fn rule_shape(m: &Mapping, kind: RuleKind) -> (r: Result<RuleShape, ShapeError>)
    ensures
        r == spec_rule_shape(*m, kind),
{
    if ip_family(m.listen_ip.as_str()).is_none() {
        return Err(ShapeError::ListenIp);
    }
    let fam = match ip_family(m.target_ip.as_str()) {
        Some(f) => f,
        None => {
            return Err(ShapeError::TargetIp);
        },
    };
    Ok(
        match kind {
            RuleKind::Dnat => RuleShape::Dnat {
                listen: if is_unspecified(m.listen_ip.as_str()) {
                    ListenMatch::AnyOf(fam)
                } else {
                    ListenMatch::Address(m.listen_ip.clone())
                },
                listen_port: m.listen_port,
                protocol: m.protocol,
                family: fam,
                target: m.target_ip.clone(),
                target_port: m.target_port,
            },
            RuleKind::Masquerade => RuleShape::Masquerade { target: m.target_ip.clone() },
            RuleKind::ForwardIn => RuleShape::ForwardIn {
                target: m.target_ip.clone(),
                target_port: m.target_port,
                protocol: m.protocol,
            },
            RuleKind::ForwardReturn => RuleShape::ForwardReturn {
                target: m.target_ip.clone(),
                target_port: m.target_port,
                protocol: m.protocol,
            },
        },
    )
}

} // verus!
