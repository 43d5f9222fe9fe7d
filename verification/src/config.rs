//! Config validation: the single gate that every way of changing the config
//! (command line, TUI, apply) passes through.

use vstd::prelude::*;

use crate::ip::{ip_family, spec_ip_family};
use crate::model::{Config, Mapping, NftablesConfig, PrometheusConfig};
use crate::nft::ruleset::{is_safe_id, spec_safe_id};
use crate::text::{append, debug_text, owned, spec_debug_text, str_eq};

verus! {

/// Address family a mapping operates on, derived from its target IP.
#[derive(Debug, Clone, Copy, PartialEq, Eq, Structural)]
pub enum Family {
    V4,
    V6,
}

/// Why a config is refused.
#[derive(Debug, Clone)]
pub enum ConfigError {
    FamilyRequired,
    FamilyUnsupported { family: String },
    TableNameRequired,
    PrometheusPathRequired,
    PrometheusPathNotAbsolute,
    PrometheusListenAddressRequired,
    MappingIdRequired,
    ListenIpRequired { id: String },
    ListenIpInvalid { id: String, ip: String },
    TargetIpInvalid { id: String, ip: String },
    MixedFamily { id: String, listen_ip: String, target_ip: String },
    ListenPortInvalid { id: String },
    TargetPortInvalid { id: String },
    UnsafeId { id: String },
    DuplicateId { id: String },
    V6OnIpTable { id: String },
    V4OnIp6Table { id: String },
    ListenConflict { id: String, previous: String },
    /// An enabled mapping whose id cannot go into a rule comment.
    RuleIdUnsafe { id: String },
}

/// The abstract value of a [`ConfigError`]: its kind and the texts it names.
pub enum ConfigFault {
    FamilyRequired,
    FamilyUnsupported(Seq<char>),
    TableNameRequired,
    PrometheusPathRequired,
    PrometheusPathNotAbsolute,
    PrometheusListenAddressRequired,
    MappingIdRequired,
    ListenIpRequired(Seq<char>),
    ListenIpInvalid(Seq<char>, Seq<char>),
    TargetIpInvalid(Seq<char>, Seq<char>),
    MixedFamily(Seq<char>, Seq<char>, Seq<char>),
    ListenPortInvalid(Seq<char>),
    TargetPortInvalid(Seq<char>),
    UnsafeId(Seq<char>),
    DuplicateId(Seq<char>),
    V6OnIpTable(Seq<char>),
    V4OnIp6Table(Seq<char>),
    ListenConflict(Seq<char>, Seq<char>),
    RuleIdUnsafe(Seq<char>),
}

impl View for ConfigError {
    type V = ConfigFault;

    open spec fn view(&self) -> ConfigFault {
        match self {
            ConfigError::FamilyRequired => ConfigFault::FamilyRequired,
            ConfigError::FamilyUnsupported { family } => ConfigFault::FamilyUnsupported(family@),
            ConfigError::TableNameRequired => ConfigFault::TableNameRequired,
            ConfigError::PrometheusPathRequired => ConfigFault::PrometheusPathRequired,
            ConfigError::PrometheusPathNotAbsolute => ConfigFault::PrometheusPathNotAbsolute,
            ConfigError::PrometheusListenAddressRequired => ConfigFault::PrometheusListenAddressRequired,
            ConfigError::MappingIdRequired => ConfigFault::MappingIdRequired,
            ConfigError::ListenIpRequired { id } => ConfigFault::ListenIpRequired(id@),
            ConfigError::ListenIpInvalid { id, ip } => ConfigFault::ListenIpInvalid(id@, ip@),
            ConfigError::TargetIpInvalid { id, ip } => ConfigFault::TargetIpInvalid(id@, ip@),
            ConfigError::MixedFamily { id, listen_ip, target_ip } => ConfigFault::MixedFamily(
                id@,
                listen_ip@,
                target_ip@,
            ),
            ConfigError::ListenPortInvalid { id } => ConfigFault::ListenPortInvalid(id@),
            ConfigError::TargetPortInvalid { id } => ConfigFault::TargetPortInvalid(id@),
            ConfigError::UnsafeId { id } => ConfigFault::UnsafeId(id@),
            ConfigError::DuplicateId { id } => ConfigFault::DuplicateId(id@),
            ConfigError::V6OnIpTable { id } => ConfigFault::V6OnIpTable(id@),
            ConfigError::V4OnIp6Table { id } => ConfigFault::V4OnIp6Table(id@),
            ConfigError::ListenConflict { id, previous } => ConfigFault::ListenConflict(
                id@,
                previous@,
            ),
            ConfigError::RuleIdUnsafe { id } => ConfigFault::RuleIdUnsafe(id@),
        }
    }
}

/// The family of a mapping, from its target IP.
pub open spec fn spec_mapping_family(m: Mapping) -> Result<Family, ConfigFault> {
    match spec_ip_family(m.target_ip@) {
        Some(f) => Ok(f),
        None => Err(ConfigFault::TargetIpInvalid(m.id@, m.target_ip@)),
    }
}

impl Mapping {
    /// Family of this mapping, derived from `target_ip`.
    pub fn family(&self) -> (r: Result<Family, ConfigError>)
        ensures
            match r {
                Ok(f) => spec_mapping_family(*self) == Ok::<Family, ConfigFault>(f),
                Err(e) => spec_mapping_family(*self) == Err::<Family, ConfigFault>(e@),
            },
    {
        match ip_family(self.target_ip.as_str()) {
            Some(f) => Ok(f),
            None => Err(
                ConfigError::TargetIpInvalid { id: self.id.clone(), ip: self.target_ip.clone() },
            ),
        }
    }
}

/// The checks of the config's global sections, in the order they are made.
pub open spec fn header_fault(c: Config) -> Option<ConfigFault> {
    sections_fault(c.nftables, c.prometheus)
}

pub open spec fn sections_fault(nft: NftablesConfig, prom: PrometheusConfig) -> Option<ConfigFault> {
    let fam = nft.family@;
    if fam.len() == 0 {
        Some(ConfigFault::FamilyRequired)
    } else if !(fam == "inet"@ || fam == "ip"@ || fam == "ip6"@) {
        Some(ConfigFault::FamilyUnsupported(fam))
    } else if nft.table_name@.len() == 0 {
        Some(ConfigFault::TableNameRequired)
    } else if prom.path@.len() == 0 {
        Some(ConfigFault::PrometheusPathRequired)
    } else if prom.path@[0] != '/' {
        Some(ConfigFault::PrometheusPathNotAbsolute)
    } else if prom.enabled && prom.listen_address@.len() == 0 {
        Some(ConfigFault::PrometheusListenAddressRequired)
    } else {
        None
    }
}

/// The checks of one mapping on its own, in the order they are made.
pub open spec fn mapping_fault(m: Mapping) -> Option<ConfigFault> {
    if m.id@.len() == 0 {
        Some(ConfigFault::MappingIdRequired)
    } else if m.listen_ip@.len() == 0 {
        Some(ConfigFault::ListenIpRequired(m.id@))
    } else if spec_ip_family(m.listen_ip@) is None {
        Some(ConfigFault::ListenIpInvalid(m.id@, m.listen_ip@))
    } else if spec_ip_family(m.target_ip@) is None {
        Some(ConfigFault::TargetIpInvalid(m.id@, m.target_ip@))
    } else if spec_ip_family(m.listen_ip@) != spec_ip_family(m.target_ip@) {
        Some(ConfigFault::MixedFamily(m.id@, m.listen_ip@, m.target_ip@))
    } else if m.listen_port == 0 {
        Some(ConfigFault::ListenPortInvalid(m.id@))
    } else if m.target_port == 0 {
        Some(ConfigFault::TargetPortInvalid(m.id@))
    } else {
        None
    }
}

/// Two mappings listen on the same address, protocol and port.
pub open spec fn same_endpoint(a: Mapping, b: Mapping) -> bool {
    a.listen_ip@ == b.listen_ip@ && a.protocol == b.protocol && a.listen_port == b.listen_port
}

/// The first mapping at or after `k` and before `i` that listens where
/// mapping `i` does.
pub open spec fn earlier_endpoint(ms: Seq<Mapping>, i: int, k: int) -> Option<int>
    decreases i - k,
{
    if k >= i {
        None
    } else if same_endpoint(ms[k], ms[i]) {
        Some(k)
    } else {
        earlier_endpoint(ms, i, k + 1)
    }
}

/// An earlier mapping carries the id of mapping `i`.
pub open spec fn id_taken(ms: Seq<Mapping>, i: int) -> bool {
    exists|j: int| 0 <= j < i && (#[trigger] ms[j]).id@ == ms[i].id@
}

/// The checks of mapping `i` against the table and the mappings before it.
pub open spec fn entry_fault(table_family: Seq<char>, ms: Seq<Mapping>, i: int) -> Option<ConfigFault> {
    let m = ms[i];
    if mapping_fault(m) is Some {
        mapping_fault(m)
    } else if !spec_safe_id(m.id@) {
        Some(ConfigFault::UnsafeId(m.id@))
    } else if id_taken(ms, i) {
        Some(ConfigFault::DuplicateId(m.id@))
    } else if table_family == "ip"@ && spec_ip_family(m.target_ip@) == Some(Family::V6) {
        Some(ConfigFault::V6OnIpTable(m.id@))
    } else if table_family == "ip6"@ && spec_ip_family(m.target_ip@) == Some(Family::V4) {
        Some(ConfigFault::V4OnIp6Table(m.id@))
    } else {
        match earlier_endpoint(ms, i, 0) {
            Some(j) => Some(ConfigFault::ListenConflict(m.id@, ms[j].id@)),
            None => None,
        }
    }
}

/// The first fault among the mappings from `i` on.
pub open spec fn faults_from(table_family: Seq<char>, ms: Seq<Mapping>, i: int) -> Option<ConfigFault>
    decreases ms.len() - i,
{
    if i < 0 || i >= ms.len() {
        None
    } else if entry_fault(table_family, ms, i) is Some {
        entry_fault(table_family, ms, i)
    } else {
        faults_from(table_family, ms, i + 1)
    }
}

/// The first fault of a config made of these sections and mappings, or
/// `None` when it is valid.
pub open spec fn validate_fault(nft: NftablesConfig, prom: PrometheusConfig, ms: Seq<Mapping>) -> Option<ConfigFault> {
    if sections_fault(nft, prom) is Some {
        sections_fault(nft, prom)
    } else {
        faults_from(nft.family@, ms, 0)
    }
}

/// The first fault of a config, or `None` when it is valid.
pub open spec fn spec_validate(c: Config) -> Option<ConfigFault> {
    validate_fault(c.nftables, c.prometheus, c.mappings@)
}

/// Mapping `m` may sit in a table of family `table_family`: an `ip` table
/// takes no IPv6 mapping and an `ip6` table no IPv4 one.
pub open spec fn fits_table(table_family: Seq<char>, m: Mapping) -> bool {
    &&& !(table_family == "ip"@ && spec_ip_family(m.target_ip@) == Some(Family::V6))
    &&& !(table_family == "ip6"@ && spec_ip_family(m.target_ip@) == Some(Family::V4))
}

/// What a valid config is, stated directly: its sections are complete, and
/// every mapping is well-formed on its own (id present, both addresses
/// parse and agree on the family, ports nonzero), has a safe id, fits the
/// table's family, and no two mappings share an id or a listen endpoint.
pub open spec fn config_ok(c: Config) -> bool {
    parts_ok(c.nftables, c.prometheus, c.mappings@)
}

/// [`config_ok`] for a config made of these sections and mappings.
pub open spec fn parts_ok(nft: NftablesConfig, prom: PrometheusConfig, ms: Seq<Mapping>) -> bool {
    &&& sections_fault(nft, prom) is None
    &&& forall|i: int| 0 <= i < ms.len() ==> mapping_fault(#[trigger] ms[i]) is None
    &&& forall|i: int| 0 <= i < ms.len() ==> spec_safe_id((#[trigger] ms[i]).id@)
    &&& forall|i: int| 0 <= i < ms.len() ==> fits_table(nft.family@, #[trigger] ms[i])
    &&& forall|i: int, j: int|
        0 <= i < j < ms.len() ==> (#[trigger] ms[i]).id@ != (#[trigger] ms[j]).id@
    &&& forall|i: int, j: int|
        0 <= i < j < ms.len() ==> !same_endpoint(#[trigger] ms[i], #[trigger] ms[j])
}

proof fn lemma_earlier_endpoint(ms: Seq<Mapping>, i: int, k: int)
    requires
        0 <= k <= i < ms.len(),
    ensures
        earlier_endpoint(ms, i, k) is None <==> forall|j: int|
            k <= j < i ==> !same_endpoint(#[trigger] ms[j], ms[i]),
    decreases i - k,
{
    if k < i {
        lemma_earlier_endpoint(ms, i, k + 1);
    }
}

proof fn lemma_entry_fault(f: Seq<char>, ms: Seq<Mapping>, i: int)
    requires
        0 <= i < ms.len(),
    ensures
        entry_fault(f, ms, i) is None <==> {
            &&& mapping_fault(ms[i]) is None
            &&& spec_safe_id(ms[i].id@)
            &&& fits_table(f, ms[i])
            &&& forall|j: int| 0 <= j < i ==> (#[trigger] ms[j]).id@ != ms[i].id@
            &&& forall|j: int| 0 <= j < i ==> !same_endpoint(#[trigger] ms[j], ms[i])
        },
{
    lemma_earlier_endpoint(ms, i, 0);
}

proof fn lemma_faults_from(f: Seq<char>, ms: Seq<Mapping>, k: int)
    requires
        0 <= k <= ms.len(),
    ensures
        faults_from(f, ms, k) is None <==> forall|i: int|
            k <= i < ms.len() ==> (#[trigger] entry_fault(f, ms, i)) is None,
    decreases ms.len() - k,
{
    if k < ms.len() {
        lemma_faults_from(f, ms, k + 1);
    }
}

/// Sections and mappings pass validation exactly when they are [`parts_ok`].
pub proof fn lemma_validate_fault_iff(nft: NftablesConfig, prom: PrometheusConfig, ms: Seq<Mapping>)
    ensures
        validate_fault(nft, prom, ms) is None <==> parts_ok(nft, prom, ms),
{
    let f = nft.family@;
    lemma_faults_from(f, ms, 0);
    if sections_fault(nft, prom) is None {
        if faults_from(f, ms, 0) is None {
            assert forall|i: int| 0 <= i < ms.len() implies {
                &&& mapping_fault(#[trigger] ms[i]) is None
                &&& spec_safe_id(ms[i].id@)
                &&& fits_table(f, ms[i])
            } by {
                assert(entry_fault(f, ms, i) is None);
                lemma_entry_fault(f, ms, i);
            }
            assert forall|i: int, j: int| 0 <= i < j < ms.len() implies (#[trigger] ms[i]).id@
                != (#[trigger] ms[j]).id@ && !same_endpoint(ms[i], ms[j]) by {
                assert(entry_fault(f, ms, j) is None);
                lemma_entry_fault(f, ms, j);
            }
        }
        if parts_ok(nft, prom, ms) {
            assert forall|i: int| 0 <= i < ms.len() implies (#[trigger] entry_fault(
                f,
                ms,
                i,
            )) is None by {
                lemma_entry_fault(f, ms, i);
                assert(mapping_fault(ms[i]) is None && spec_safe_id(ms[i].id@) && fits_table(
                    f,
                    ms[i],
                ));
                assert forall|j: int| 0 <= j < i implies (#[trigger] ms[j]).id@ != ms[i].id@
                    && !same_endpoint(ms[j], ms[i]) by {
                    assert(ms[j].id@ != ms[i].id@);
                    assert(!same_endpoint(ms[j], ms[i]));
                }
            }
        }
    }
}

/// A config passes validation exactly when it is [`config_ok`].
pub proof fn lemma_validate_iff(c: Config)
    ensures
        spec_validate(c) is None <==> config_ok(c),
{
    lemma_validate_fault_iff(c.nftables, c.prometheus, c.mappings@);
}

fn validate_header(cfg: &Config) -> (r: Result<(), ConfigError>)
    ensures
        match r {
            Ok(()) => header_fault(*cfg) is None,
            Err(e) => header_fault(*cfg) == Some(e@),
        },
{
    let fam = cfg.nftables.family.as_str();
    if fam.is_empty() {
        return Err(ConfigError::FamilyRequired);
    }
    if !str_eq(fam, "inet") && !str_eq(fam, "ip") && !str_eq(fam, "ip6") {
        return Err(ConfigError::FamilyUnsupported { family: cfg.nftables.family.clone() });
    }
    if cfg.nftables.table_name.as_str().is_empty() {
        return Err(ConfigError::TableNameRequired);
    }
    let path = crate::text::chars_of(cfg.prometheus.path.as_str());
    if path.len() == 0 {
        return Err(ConfigError::PrometheusPathRequired);
    }
    if path[0] != '/' {
        return Err(ConfigError::PrometheusPathNotAbsolute);
    }
    if cfg.prometheus.enabled && cfg.prometheus.listen_address.as_str().is_empty() {
        return Err(ConfigError::PrometheusListenAddressRequired);
    }
    Ok(())
}

fn validate_mapping(m: &Mapping) -> (r: Result<(), ConfigError>)
    ensures
        match r {
            Ok(()) => mapping_fault(*m) is None,
            Err(e) => mapping_fault(*m) == Some(e@),
        },
{
    if m.id.as_str().is_empty() {
        return Err(ConfigError::MappingIdRequired);
    }
    if m.listen_ip.as_str().is_empty() {
        return Err(ConfigError::ListenIpRequired { id: m.id.clone() });
    }
    let listen = match ip_family(m.listen_ip.as_str()) {
        Some(f) => f,
        None => {
            return Err(ConfigError::ListenIpInvalid { id: m.id.clone(), ip: m.listen_ip.clone() });
        },
    };
    let target = match ip_family(m.target_ip.as_str()) {
        Some(f) => f,
        None => {
            return Err(ConfigError::TargetIpInvalid { id: m.id.clone(), ip: m.target_ip.clone() });
        },
    };
    // listen and target must agree on address family — we cannot DNAT v4->v6.
    if listen != target {
        return Err(
            ConfigError::MixedFamily {
                id: m.id.clone(),
                listen_ip: m.listen_ip.clone(),
                target_ip: m.target_ip.clone(),
            },
        );
    }
    if m.listen_port == 0 {
        return Err(ConfigError::ListenPortInvalid { id: m.id.clone() });
    }
    if m.target_port == 0 {
        return Err(ConfigError::TargetPortInvalid { id: m.id.clone() });
    }
    Ok(())
}

/// The checks of mapping `i` against the table and the mappings before it.
#[verifier::loop_isolation(false)]
fn validate_entry(cfg: &Config, i: usize) -> (r: Result<(), ConfigError>)
    requires
        i < cfg.mappings.len(),
    ensures
        match r {
            Ok(()) => entry_fault(cfg.nftables.family@, cfg.mappings@, i as int) is None,
            Err(e) => entry_fault(cfg.nftables.family@, cfg.mappings@, i as int) == Some(e@),
        },
{
    let ghost ms = cfg.mappings@;
    let m = &cfg.mappings[i];
    validate_mapping(m)?;
    // Mapping ids must be unique (they label rules and key reconciliation)
    // and use a conservative charset (they go into rule comments parsed by
    // whitespace).
    if !is_safe_id(m.id.as_str()) {
        return Err(ConfigError::UnsafeId { id: m.id.clone() });
    }
    let mut j: usize = 0;
    while j < i
        invariant
            i < cfg.mappings.len(),
            ms == cfg.mappings@,
            m == ms[i as int],
            j <= i,
            forall|k: int| 0 <= k < j ==> (#[trigger] ms[k]).id@ != m.id@,
        decreases i - j,
    {
        assert(ms[j as int] == cfg.mappings@[j as int]);
        if cfg.mappings[j].id == m.id {
            assert(ms[j as int].id@ == ms[i as int].id@);
            assert(id_taken(ms, i as int));
            return Err(ConfigError::DuplicateId { id: m.id.clone() });
        }
        j = j + 1;
    }
    // An ip family table cannot carry v6 mappings and vice versa.
    let fam = m.family()?;
    let table = cfg.nftables.family.as_str();
    if str_eq(table, "ip") && fam == Family::V6 {
        return Err(ConfigError::V6OnIpTable { id: m.id.clone() });
    }
    if str_eq(table, "ip6") && fam == Family::V4 {
        return Err(ConfigError::V4OnIp6Table { id: m.id.clone() });
    }
    let mut k: usize = 0;
    while k < i
        invariant
            i < cfg.mappings.len(),
            ms == cfg.mappings@,
            m == ms[i as int],
            k <= i,
            earlier_endpoint(ms, i as int, 0) == earlier_endpoint(ms, i as int, k as int),
        decreases i - k,
    {
        let o = &cfg.mappings[k];
        assert(*o == ms[k as int]);
        if o.listen_ip == m.listen_ip && o.protocol == m.protocol && o.listen_port == m.listen_port {
            return Err(ConfigError::ListenConflict { id: m.id.clone(), previous: o.id.clone() });
        }
        k = k + 1;
    }
    Ok(())
}

/// Checks a whole config; the error is the first check that fails.
pub fn validate(cfg: &Config) -> (r: Result<(), ConfigError>)
    ensures
        match r {
            Ok(()) => spec_validate(*cfg) is None,
            Err(e) => spec_validate(*cfg) == Some(e@),
        },
{
    validate_header(cfg)?;
    let mut i: usize = 0;
    while i < cfg.mappings.len()
        invariant
            i <= cfg.mappings.len(),
            header_fault(*cfg) is None,
            spec_validate(*cfg) == faults_from(cfg.nftables.family@, cfg.mappings@, i as int),
        decreases cfg.mappings.len() - i,
    {
        validate_entry(cfg, i)?;
        i = i + 1;
    }
    Ok(())
}

/// The text a fault is reported with.
pub open spec fn fault_text(f: ConfigFault) -> Seq<char> {
    match f {
        ConfigFault::FamilyRequired => "nftables.family is required"@,
        ConfigFault::FamilyUnsupported(fam) => "nftables.family "@ + spec_debug_text(fam)
            + " is not supported (use inet, ip or ip6)"@,
        ConfigFault::TableNameRequired => "nftables.table_name is required"@,
        ConfigFault::PrometheusPathRequired => "prometheus.path is required"@,
        ConfigFault::PrometheusPathNotAbsolute => "prometheus.path must start with /"@,
        ConfigFault::PrometheusListenAddressRequired => "prometheus.listen_address is required when enabled"@,
        ConfigFault::MappingIdRequired => "mapping id is required"@,
        ConfigFault::ListenIpRequired(id) => "mapping "@ + id + " listen_ip is required"@,
        ConfigFault::ListenIpInvalid(id, ip) => "mapping "@ + id + " listen_ip is invalid: "@ + ip,
        ConfigFault::TargetIpInvalid(id, ip) => "mapping "@ + id + " target_ip is invalid: "@ + ip,
        ConfigFault::MixedFamily(id, l, t) => "mapping "@ + id + " mixes IPv4 and IPv6 (listen "@
            + l + " / target "@ + t + ")"@,
        ConfigFault::ListenPortInvalid(id) => "mapping "@ + id + " listen_port must be 1-65535"@,
        ConfigFault::TargetPortInvalid(id) => "mapping "@ + id + " target_port must be 1-65535"@,
        ConfigFault::UnsafeId(id) => "mapping "@ + id
            + " id has unsupported characters (use [A-Za-z0-9._-], start alnum)"@,
        ConfigFault::DuplicateId(id) => "duplicate mapping id: "@ + id,
        ConfigFault::V6OnIpTable(id) => "mapping "@ + id + " is IPv6 but nftables.family is ip"@,
        ConfigFault::V4OnIp6Table(id) => "mapping "@ + id + " is IPv4 but nftables.family is ip6"@,
        ConfigFault::ListenConflict(id, prev) => "listen endpoint conflict: "@ + id
            + " conflicts with mapping "@ + prev,
        ConfigFault::RuleIdUnsafe(id) => "mapping "@ + id + " contains unsupported characters in its id"@,
    }
}

fn cat2(a: &str, b: &str) -> (r: String)
    ensures
        r@ == a@ + b@,
{
    let mut s = owned(a);
    append(&mut s, b);
    s
}

fn cat3(a: &str, b: &str, c: &str) -> (r: String)
    ensures
        r@ == a@ + b@ + c@,
{
    let mut s = owned(a);
    append(&mut s, b);
    append(&mut s, c);
    s
}

impl ConfigError {
    /// The text this error is reported with.
    pub fn message(&self) -> (r: String)
        ensures
            r@ == fault_text(self@),
    {
        match self {
            ConfigError::FamilyRequired => owned("nftables.family is required"),
            ConfigError::FamilyUnsupported { family } => {
                let shown = debug_text(family.as_str());
                cat3("nftables.family ", shown.as_str(), " is not supported (use inet, ip or ip6)")
            },
            ConfigError::TableNameRequired => owned("nftables.table_name is required"),
            ConfigError::PrometheusPathRequired => owned("prometheus.path is required"),
            ConfigError::PrometheusPathNotAbsolute => owned("prometheus.path must start with /"),
            ConfigError::PrometheusListenAddressRequired => owned(
                "prometheus.listen_address is required when enabled",
            ),
            ConfigError::MappingIdRequired => owned("mapping id is required"),
            ConfigError::ListenIpRequired { id } => cat3(
                "mapping ",
                id.as_str(),
                " listen_ip is required",
            ),
            ConfigError::ListenIpInvalid { id, ip } => {
                let mut s = cat3("mapping ", id.as_str(), " listen_ip is invalid: ");
                append(&mut s, ip.as_str());
                s
            },
            ConfigError::TargetIpInvalid { id, ip } => {
                let mut s = cat3("mapping ", id.as_str(), " target_ip is invalid: ");
                append(&mut s, ip.as_str());
                s
            },
            ConfigError::MixedFamily { id, listen_ip, target_ip } => {
                let mut s = cat3("mapping ", id.as_str(), " mixes IPv4 and IPv6 (listen ");
                append(&mut s, listen_ip.as_str());
                append(&mut s, " / target ");
                append(&mut s, target_ip.as_str());
                append(&mut s, ")");
                s
            },
            ConfigError::ListenPortInvalid { id } => cat3(
                "mapping ",
                id.as_str(),
                " listen_port must be 1-65535",
            ),
            ConfigError::TargetPortInvalid { id } => cat3(
                "mapping ",
                id.as_str(),
                " target_port must be 1-65535",
            ),
            ConfigError::UnsafeId { id } => cat3(
                "mapping ",
                id.as_str(),
                " id has unsupported characters (use [A-Za-z0-9._-], start alnum)",
            ),
            ConfigError::DuplicateId { id } => cat2("duplicate mapping id: ", id.as_str()),
            ConfigError::V6OnIpTable { id } => cat3(
                "mapping ",
                id.as_str(),
                " is IPv6 but nftables.family is ip",
            ),
            ConfigError::V4OnIp6Table { id } => cat3(
                "mapping ",
                id.as_str(),
                " is IPv4 but nftables.family is ip6",
            ),
            ConfigError::ListenConflict { id, previous } => {
                let mut s = cat3("listen endpoint conflict: ", id.as_str(), " conflicts with mapping ");
                append(&mut s, previous.as_str());
                s
            },
            ConfigError::RuleIdUnsafe { id } => cat3(
                "mapping ",
                id.as_str(),
                " contains unsupported characters in its id",
            ),
        }
    }
}

} // verus!
