//! Target reachability / latency probe results.
//!
//! Latency is measured for the downstream hop, from this host to a mapping's
//! target: a TCP handshake for TCP mappings, an ICMP ping for UDP mappings.

use std::time::Duration;

use vstd::prelude::*;

use crate::config::Family;
use crate::ip::{ip_family, spec_ip_family};
use crate::model::{Mapping, Protocol};
use crate::text::{append, dec_text, owned, u64_text};

verus! {

#[derive(Debug, Clone)]
pub struct ProbeResult {
    pub mapping_id: String,
    /// Round-trip latency, or `None` if unreachable / timed out.
    pub latency: Option<std::time::Duration>,
    /// "tcp" (handshake) or "icmp" (ping).
    pub method: &'static str,
    pub error: Option<String>,
}

impl ProbeResult {
    /// A copy of this result.
    pub fn clone_result(&self) -> (r: ProbeResult)
        ensures
            r == *self,
    {
        ProbeResult {
            mapping_id: self.mapping_id.clone(),
            latency: self.latency,
            method: self.method,
            error: match &self.error {
                Some(e) => Some(e.clone()),
                None => None,
            },
        }
    }
}

/// The first step of probing a mapping's target.
#[derive(Debug)]
pub enum ProbeStep {
    /// Nothing to probe: this is the result.
    Done(ProbeResult),
    /// Time a TCP handshake with this address and port.
    Tcp { ip: String, port: u16 },
    /// Ping this address (`v6` when it is IPv6).
    Icmp { ip: String, v6: bool },
}

/// How a mapping's target is probed: TCP mappings by a handshake with the
/// target port, UDP mappings by a ping of the target host; a target address
/// that does not parse is reported at once.
pub fn plan_probe(m: &Mapping) -> (r: ProbeStep)
    ensures
        match spec_ip_family(m.target_ip@) {
            None => r matches ProbeStep::Done(p) && p.mapping_id == m.id && p.latency is None
                && p.method@ == "tcp"@ && (p.error matches Some(e) && e@ == "invalid target_ip "@
                + m.target_ip@),
            Some(f) => match m.protocol {
                Protocol::Tcp => r matches ProbeStep::Tcp { ip, port } && ip == m.target_ip && port
                    == m.target_port,
                Protocol::Udp => r matches ProbeStep::Icmp { ip, v6 } && ip == m.target_ip && v6
                    == (f == Family::V6),
            },
        },
{
    match ip_family(m.target_ip.as_str()) {
        None => {
            let mut e = owned("invalid target_ip ");
            append(&mut e, m.target_ip.as_str());
            ProbeStep::Done(
                ProbeResult { mapping_id: m.id.clone(), latency: None, method: "tcp", error: Some(e) },
            )
        },
        Some(f) => match m.protocol {
            Protocol::Tcp => ProbeStep::Tcp { ip: m.target_ip.clone(), port: m.target_port },
            Protocol::Udp => ProbeStep::Icmp {
                ip: m.target_ip.clone(),
                v6: match f {
                    Family::V6 => true,
                    Family::V4 => false,
                },
            },
        },
    }
}

/// The result of a TCP handshake probe: its time, or why it failed.
pub fn tcp_result(id: String, outcome: Result<Duration, String>) -> (r: ProbeResult)
    ensures
        r.mapping_id == id,
        r.method@ == "tcp"@,
        match outcome {
            Ok(d) => r.latency == Some(d) && r.error is None,
            Err(e) => r.latency is None && r.error == Some(e),
        },
{
    match outcome {
        Ok(d) => ProbeResult { mapping_id: id, latency: Some(d), method: "tcp", error: None },
        Err(e) => ProbeResult { mapping_id: id, latency: None, method: "tcp", error: Some(e) },
    }
}

/// The result of a ping probe: its round-trip time, or no reply.
pub fn icmp_result(id: String, rtt: Option<Duration>) -> (r: ProbeResult)
    ensures
        r.mapping_id == id,
        r.method@ == "icmp"@,
        r.latency == rtt,
        match rtt {
            Some(_) => r.error is None,
            None => r.error matches Some(e) && e@ == "no reply"@,
        },
{
    match rtt {
        Some(d) => ProbeResult { mapping_id: id, latency: Some(d), method: "icmp", error: None },
        None => ProbeResult {
            mapping_id: id,
            latency: None,
            method: "icmp",
            error: Some(owned("no reply")),
        },
    }
}

/// The arguments of the system `ping` for one echo to `ip` with a reply
/// timeout of `secs` seconds (at least one): `-t` on macOS, `-W` (and `-6`
/// for IPv6) elsewhere.
pub open spec fn ping_args_text(secs: u64, v6: bool, macos: bool, ip: Seq<char>) -> Seq<Seq<char>> {
    let s = dec_text(if secs < 1 {
        1
    } else {
        secs as nat
    });
    seq!["-c"@, "1"@] + if macos {
        seq!["-t"@, s]
    } else if v6 {
        seq!["-W"@, s, "-6"@]
    } else {
        seq!["-W"@, s]
    } + seq![ip]
}

pub fn ping_args(secs: u64, v6: bool, macos: bool, ip: &str) -> (r: Vec<String>)
    ensures
        Seq::new(r@.len(), |i: int| r@[i]@) == ping_args_text(secs, v6, macos, ip@),
{
    let s = u64_text(if secs < 1 {
        1
    } else {
        secs
    });
    let mut r: Vec<String> = Vec::new();
    r.push(owned("-c"));
    r.push(owned("1"));
    if macos {
        r.push(owned("-t"));
        r.push(s);
    } else {
        r.push(owned("-W"));
        r.push(s);
        if v6 {
            r.push(owned("-6"));
        }
    }
    r.push(owned(ip));
    assert(Seq::new(r@.len(), |i: int| r@[i]@) =~= ping_args_text(secs, v6, macos, ip@));
    r
}

} // verus!
