//! The command-line commands: what each one does to the config and what it
//! prints.
//!
//! Reading and writing the config file, talking to the kernel and probing
//! targets happen around these functions; [`run`] says which of that work a
//! command needs, and hands over the config to write and the text to print.

use vstd::prelude::*;

use crate::config::{fault_text, ConfigFault};
use crate::model::{is_default_config, protocol_text, Config, Mapping, Protocol};
use crate::nft::ruleset::{kind_text, rule_views, ruleset_text, spec_desired_rules};
use crate::nft::{desired_rules, render_ruleset};
use crate::nft::{ApplyReport, ObservedRule, RuleKind};
use crate::text::{append, bool_string, bool_text, dec_text, owned, str_eq, u64_text};

verus! {

/// Arguments of `add`.
pub struct AddArgs {
    pub id: String,
    pub name: String,
    pub proto: Protocol,
    pub listen_ip: String,
    pub listen_port: u16,
    pub target_ip: String,
    pub target_port: u16,
    pub enabled: bool,
    /// Masquerade for this mapping; `None` takes `nftables.default_masquerade`.
    pub masquerade: Option<bool>,
    pub description: String,
}

/// Arguments of `set`: only the fields given change.
pub struct SetArgs {
    pub id: String,
    pub name: Option<String>,
    pub proto: Option<Protocol>,
    pub listen_ip: Option<String>,
    pub listen_port: Option<u16>,
    pub target_ip: Option<String>,
    pub target_port: Option<u16>,
    pub enabled: Option<bool>,
    pub masquerade: Option<bool>,
    pub description: Option<String>,
}

/// Arguments of `config`: the Prometheus settings to change.
pub struct ConfigArgs {
    pub prometheus_enabled: Option<bool>,
    pub prometheus_listen_address: Option<String>,
    pub prometheus_path: Option<String>,
}

/// The commands.
pub enum Commands {
    /// List configured mappings.
    List,
    /// Add a new mapping.
    Add(AddArgs),
    /// Update fields of an existing mapping.
    SetFields(SetArgs),
    /// Enable a mapping.
    Enable { id: String },
    /// Disable a mapping.
    Disable { id: String },
    /// Set masquerade on a mapping.
    Masquerade { id: String, enabled: bool },
    /// Delete a mapping.
    Delete { id: String },
    /// Show or change the Prometheus settings.
    Config(ConfigArgs),
    /// Validate the config and the generated ruleset.
    Check,
    /// Print the desired ruleset without applying it.
    Plan,
    /// Apply the desired ruleset to the kernel.
    Apply,
    /// Show runtime status.
    Status,
    /// Measure latency to mapping targets.
    Probe { id: Option<String> },
    /// Run the resident daemon.
    Daemon,
    /// Launch the interactive terminal UI.
    Tui,
}

/// A parsed command line: the config file given with `--config`, if any,
/// and the command.
pub struct Cli {
    pub config: Option<String>,
    pub command: Commands,
}

/// Parses a `--proto` value.
pub fn parse_proto(s: &str) -> (r: Result<Protocol, String>)
    ensures
        match r {
            Ok(p) => crate::model::spec_parse_protocol(s@) == Some(p),
            Err(msg) => crate::model::spec_parse_protocol(s@) is None && msg@
                == crate::model::protocol_error_text(s@),
        },
{
    Protocol::parse_text(s)
}

/// The position of the first mapping with id `id`.
pub open spec fn spec_mapping_index(ms: Seq<Mapping>, id: Seq<char>) -> Option<int>
    decreases ms.len(),
{
    if ms.len() == 0 {
        None
    } else {
        match spec_mapping_index(ms.drop_last(), id) {
            Some(i) => Some(i),
            None => if ms.last().id@ == id {
                Some(ms.len() - 1)
            } else {
                None
            },
        }
    }
}

proof fn lemma_mapping_index(ms: Seq<Mapping>, id: Seq<char>)
    ensures
        match spec_mapping_index(ms, id) {
            Some(i) => 0 <= i < ms.len() && ms[i].id@ == id && forall|j: int|
                0 <= j < i ==> (#[trigger] ms[j]).id@ != id,
            None => forall|j: int| 0 <= j < ms.len() ==> (#[trigger] ms[j]).id@ != id,
        },
    decreases ms.len(),
{
    if ms.len() > 0 {
        lemma_mapping_index(ms.drop_last(), id);
        assert forall|j: int| 0 <= j < ms.len() - 1 implies ms.drop_last()[j] == ms[j] by {}
    }
}

/// The index of the first mapping with id `id`.
pub fn mapping_index(cfg: &Config, id: &str) -> (r: Option<usize>)
    ensures
        match r {
            Some(i) => spec_mapping_index(cfg.mappings@, id@) == Some(i as int) && i
                < cfg.mappings@.len() && cfg.mappings@[i as int].id@ == id@,
            None => spec_mapping_index(cfg.mappings@, id@) is None && forall|j: int|
                0 <= j < cfg.mappings@.len() ==> (#[trigger] cfg.mappings@[j]).id@ != id@,
        },
{
    proof {
        lemma_mapping_index(cfg.mappings@, id@);
    }
    let ghost ms = cfg.mappings@;
    let mut i: usize = 0;
    while i < cfg.mappings.len()
        invariant
            ms == cfg.mappings@,
            i <= ms.len(),
            forall|j: int| 0 <= j < i ==> (#[trigger] ms[j]).id@ != id@,
        decreases ms.len() - i,
    {
        if str_eq(cfg.mappings[i].id.as_str(), id) {
            proof {
                lemma_mapping_index(ms, id@);
                match spec_mapping_index(ms, id@) {
                    Some(k) => {
                        assert(ms[i as int].id@ == id@);
                        if k < i {
                            assert(ms[k].id@ == id@);
                        }
                    },
                    None => {
                        assert(ms[i as int].id@ == id@);
                    },
                }
            }
            return Some(i);
        }
        i = i + 1;
    }
    proof {
        match spec_mapping_index(ms, id@) {
            Some(k) => {
                assert(ms[k].id@ == id@);
            },
            None => {},
        }
    }
    None
}

/// The message of a command naming a mapping that does not exist.
pub open spec fn not_found_text(id: Seq<char>) -> Seq<char> {
    "mapping id not found: "@ + id
}

fn not_found(id: &str) -> (r: String)
    ensures
        r@ == not_found_text(id@),
{
    let mut s = owned("mapping id not found: ");
    append(&mut s, id);
    s
}

/// Why reading the config file failed.
pub enum LoadFailure {
    /// The file does not exist.
    Missing,
    /// Any other failure, with its message.
    Other(String),
}

/// What to do with the outcome of reading the config file.
#[derive(Debug)]
pub enum LoadStep {
    /// Use this config.
    Loaded(Config),
    /// Write this (default) config as a new file, then use it.
    Create(Config),
    /// Stop with this message.
    Failed(String),
}

/// A config that was read is used; a missing file is created with the
/// default config; every other failure is reported.
pub fn load_or_create(loaded: Result<Config, LoadFailure>) -> (r: LoadStep)
    ensures
        match loaded {
            Ok(c) => r == LoadStep::Loaded(c),
            Err(LoadFailure::Missing) => r matches LoadStep::Create(d) && is_default_config(d),
            Err(LoadFailure::Other(e)) => r == LoadStep::Failed(e),
        },
{
    match loaded {
        Ok(c) => LoadStep::Loaded(c),
        Err(LoadFailure::Missing) => LoadStep::Create(Config::default()),
        Err(LoadFailure::Other(e)) => LoadStep::Failed(e),
    }
}

/// The `list` line of one mapping.
pub open spec fn list_row_text(m: Mapping) -> Seq<char> {
    m.id@ + "\t"@ + protocol_text(m.protocol) + "\t"@ + m.listen_ip@ + ":"@ + dec_text(
        m.listen_port as nat,
    ) + "\t"@ + m.target_ip@ + ":"@ + dec_text(m.target_port as nat) + "\t"@ + (if m.enabled {
        "enabled"@
    } else {
        "disabled"@
    }) + "\t"@ + bool_text(m.masquerade) + "\n"@
}

/// The `list` lines of some mappings, in order.
pub open spec fn list_rows_text(ms: Seq<Mapping>) -> Seq<char>
    decreases ms.len(),
{
    if ms.len() == 0 {
        Seq::empty()
    } else {
        list_rows_text(ms.drop_last()) + list_row_text(ms.last())
    }
}

/// What `list` prints.
pub open spec fn list_text(ms: Seq<Mapping>) -> Seq<char> {
    if ms.len() == 0 {
        "no mappings\n"@
    } else {
        "ID\tPROTO\tLISTEN\tTARGET\tSTATE\tMASQ\n"@ + list_rows_text(ms)
    }
}

fn push_list_row(s: &mut String, m: &Mapping)
    ensures
        final(s)@ == old(s)@ + list_row_text(*m),
{
    append(s, m.id.as_str());
    append(s, "\t");
    append(s, m.protocol.as_str());
    append(s, "\t");
    append(s, m.listen_ip.as_str());
    append(s, ":");
    append(s, u64_text(m.listen_port as u64).as_str());
    append(s, "\t");
    append(s, m.target_ip.as_str());
    append(s, ":");
    append(s, u64_text(m.target_port as u64).as_str());
    append(s, "\t");
    append(s, if m.enabled { "enabled" } else { "disabled" });
    append(s, "\t");
    append(s, bool_string(m.masquerade).as_str());
    append(s, "\n");
}

/// The text `list` prints for a config.
pub fn list(cfg: &Config) -> (r: String)
    ensures
        r@ == list_text(cfg.mappings@),
{
    if cfg.mappings.len() == 0 {
        return owned("no mappings\n");
    }
    let ghost ms = cfg.mappings@;
    let mut s = owned("ID\tPROTO\tLISTEN\tTARGET\tSTATE\tMASQ\n");
    let mut i: usize = 0;
    while i < cfg.mappings.len()
        invariant
            ms == cfg.mappings@,
            i <= ms.len(),
            s@ == "ID\tPROTO\tLISTEN\tTARGET\tSTATE\tMASQ\n"@ + list_rows_text(ms.take(i as int)),
        decreases ms.len() - i,
    {
        assert(ms.take(i as int + 1).drop_last() == ms.take(i as int));
        push_list_row(&mut s, &cfg.mappings[i]);
        i = i + 1;
    }
    assert(ms.take(ms.len() as int) == ms);
    s
}

/// Some mapping has id `id`.
pub open spec fn id_exists(ms: Seq<Mapping>, id: Seq<char>) -> bool {
    exists|j: int| 0 <= j < ms.len() && (#[trigger] ms[j]).id@ == id
}

/// The mappings with id `id`, in order.
pub open spec fn with_id(ms: Seq<Mapping>, id: Seq<char>) -> Seq<Mapping>
    decreases ms.len(),
{
    if ms.len() == 0 {
        Seq::empty()
    } else if ms.last().id@ == id {
        with_id(ms.drop_last(), id).push(ms.last())
    } else {
        with_id(ms.drop_last(), id)
    }
}

/// The mappings whose id is not `id`, in order.
pub open spec fn without_id(ms: Seq<Mapping>, id: Seq<char>) -> Seq<Mapping>
    decreases ms.len(),
{
    if ms.len() == 0 {
        Seq::empty()
    } else if ms.last().id@ == id {
        without_id(ms.drop_last(), id)
    } else {
        without_id(ms.drop_last(), id).push(ms.last())
    }
}

/// Taking out (or picking) the mappings with a given id changes the count
/// exactly when some mapping has that id.
proof fn lemma_id_split(ms: Seq<Mapping>, id: Seq<char>)
    ensures
        without_id(ms, id).len() + with_id(ms, id).len() == ms.len(),
        with_id(ms, id).len() == 0 <==> !id_exists(ms, id),
    decreases ms.len(),
{
    if ms.len() > 0 {
        let init = ms.drop_last();
        lemma_id_split(init, id);
        if id_exists(init, id) {
            let j = choose|j: int| 0 <= j < init.len() && (#[trigger] init[j]).id@ == id;
            assert(ms[j] == init[j]);
        }
        if id_exists(ms, id) && ms.last().id@ != id {
            let j = choose|j: int| 0 <= j < ms.len() && (#[trigger] ms[j]).id@ == id;
            assert(j < init.len());
            assert(init[j] == ms[j]);
        }
        if ms.last().id@ == id {
            assert(ms[ms.len() - 1].id@ == id);
        }
    }
}

/// The mapping `add` creates: masquerade falls back to the config's default.
pub open spec fn added_mapping(a: AddArgs, default_masquerade: bool) -> Mapping {
    Mapping {
        id: a.id,
        name: a.name,
        protocol: a.proto,
        listen_ip: a.listen_ip,
        listen_port: a.listen_port,
        target_ip: a.target_ip,
        target_port: a.target_port,
        enabled: a.enabled,
        masquerade: match a.masquerade {
            Some(b) => b,
            None => default_masquerade,
        },
        description: a.description,
    }
}

/// A mapping after `set`: each field given replaces the old one.
pub open spec fn fields_set(m: Mapping, a: SetArgs) -> Mapping {
    Mapping {
        name: match a.name {
            Some(v) => v,
            None => m.name,
        },
        protocol: match a.proto {
            Some(v) => v,
            None => m.protocol,
        },
        listen_ip: match a.listen_ip {
            Some(v) => v,
            None => m.listen_ip,
        },
        listen_port: match a.listen_port {
            Some(v) => v,
            None => m.listen_port,
        },
        target_ip: match a.target_ip {
            Some(v) => v,
            None => m.target_ip,
        },
        target_port: match a.target_port {
            Some(v) => v,
            None => m.target_port,
        },
        enabled: match a.enabled {
            Some(v) => v,
            None => m.enabled,
        },
        masquerade: match a.masquerade {
            Some(v) => v,
            None => m.masquerade,
        },
        description: match a.description {
            Some(v) => v,
            None => m.description,
        },
        ..m
    }
}

/// Applies the fields of `a` to `m`.
fn set_fields(m: &mut Mapping, a: SetArgs)
    ensures
        *final(m) == fields_set(*old(m), a),
{
    let SetArgs {
        id: _,
        name,
        proto,
        listen_ip,
        listen_port,
        target_ip,
        target_port,
        enabled,
        masquerade,
        description,
    } = a;
    if let Some(v) = name {
        m.name = v;
    }
    if let Some(v) = proto {
        m.protocol = v;
    }
    if let Some(v) = listen_ip {
        m.listen_ip = v;
    }
    if let Some(v) = listen_port {
        m.listen_port = v;
    }
    if let Some(v) = target_ip {
        m.target_ip = v;
    }
    if let Some(v) = target_port {
        m.target_port = v;
    }
    if let Some(v) = enabled {
        m.enabled = v;
    }
    if let Some(v) = masquerade {
        m.masquerade = v;
    }
    if let Some(v) = description {
        m.description = v;
    }
}

/// The Prometheus settings after `config`: each value given replaces the
/// old one.
pub open spec fn prometheus_set(p: crate::model::PrometheusConfig, a: ConfigArgs) -> crate::model::PrometheusConfig {
    crate::model::PrometheusConfig {
        enabled: match a.prometheus_enabled {
            Some(v) => v,
            None => p.enabled,
        },
        listen_address: match a.prometheus_listen_address {
            Some(v) => v,
            None => p.listen_address,
        },
        path: match a.prometheus_path {
            Some(v) => v,
            None => p.path,
        },
    }
}

/// What `config` prints: the Prometheus settings.
pub open spec fn prometheus_text(p: crate::model::PrometheusConfig) -> Seq<char> {
    "prometheus.enabled="@ + bool_text(p.enabled) + "\nprometheus.listen_address="@
        + p.listen_address@ + "\nprometheus.path="@ + p.path@ + "\n"@
}

/// What `check` prints for a valid config.
pub open spec fn check_text(n_rules: nat, n_mappings: nat) -> Seq<char> {
    "config: ok\nrules: "@ + dec_text(n_rules) + " (buildable)\nmappings: "@ + dec_text(n_mappings)
        + "\nnote: kernel state is checked by `apply` (netlink, atomic)\n"@
}

/// The `plan` lines naming each desired rule.
pub open spec fn plan_lines(rules: Seq<(Seq<char>, RuleKind, Seq<char>)>) -> Seq<char>
    decreases rules.len(),
{
    if rules.len() == 0 {
        Seq::empty()
    } else {
        plan_lines(rules.drop_last()) + "+ "@ + rules.last().0 + " "@ + kind_text(rules.last().1)
            + "\n"@
    }
}

/// What `plan` prints.
pub open spec fn plan_text(c: Config, rules: Seq<(Seq<char>, RuleKind, Seq<char>)>) -> Seq<char> {
    "desired rules: "@ + dec_text(rules.len()) + "\n\n"@ + plan_lines(rules)
        + "\n--- ruleset ---\n"@ + ruleset_text(c, rules)
}

/// What `apply` prints after the rules were applied.
pub open spec fn apply_report_text(r: ApplyReport) -> Seq<char> {
    "apply: ok (added="@ + dec_text(r.added as nat) + ", deleted="@ + dec_text(r.deleted as nat)
        + ", kept="@ + dec_text(r.kept as nat) + ")\n"@
}

/// The text `apply` prints for a report.
pub fn apply_text(r: &ApplyReport) -> (t: String)
    ensures
        t@ == apply_report_text(*r),
{
    let mut s = owned("apply: ok (added=");
    append(&mut s, u64_text(r.added as u64).as_str());
    append(&mut s, ", deleted=");
    append(&mut s, u64_text(r.deleted as u64).as_str());
    append(&mut s, ", kept=");
    append(&mut s, u64_text(r.kept as u64).as_str());
    append(&mut s, ")\n");
    s
}

/// The `status` lines of the live rules.
pub open spec fn live_lines(rules: Seq<ObservedRule>) -> Seq<char>
    decreases rules.len(),
{
    if rules.len() == 0 {
        Seq::empty()
    } else {
        live_lines(rules.drop_last()) + "  "@ + rules.last().mapping_id@ + " "@ + kind_text(
            rules.last().kind,
        ) + "\n"@
    }
}

/// What `status` prints, given what listing the live rules gave.
pub open spec fn status_report_text(c: Config, live: Result<Seq<ObservedRule>, Seq<char>>) -> Seq<char> {
    "mappings: "@ + dec_text(c.mappings@.len()) + "\ntable: "@ + c.nftables.family@ + " "@
        + c.nftables.table_name@ + "\n"@ + match live {
        Ok(rules) => "live rules: "@ + dec_text(rules.len()) + "\n"@ + live_lines(rules),
        Err(e) => "live rules: unavailable ("@ + e + ")\n"@,
    }
}

/// The text `status` prints.
pub fn status_text(cfg: &Config, live: &Result<Vec<ObservedRule>, String>) -> (t: String)
    ensures
        t@ == status_report_text(
            *cfg,
            match live {
                Ok(v) => Ok(v@),
                Err(e) => Err(e@),
            },
        ),
{
    let mut s = owned("mappings: ");
    append(&mut s, u64_text(cfg.mappings.len() as u64).as_str());
    append(&mut s, "\ntable: ");
    append(&mut s, cfg.nftables.family.as_str());
    append(&mut s, " ");
    append(&mut s, cfg.nftables.table_name.as_str());
    append(&mut s, "\n");
    let ghost head = s@;
    match live {
        Ok(rules) => {
            append(&mut s, "live rules: ");
            append(&mut s, u64_text(rules.len() as u64).as_str());
            append(&mut s, "\n");
            let ghost top = s@;
            let mut i: usize = 0;
            while i < rules.len()
                invariant
                    i <= rules.len(),
                    s@ == top + live_lines(rules@.take(i as int)),
                decreases rules.len() - i,
            {
                assert(rules@.take(i as int + 1).drop_last() == rules@.take(i as int));
                append(&mut s, "  ");
                append(&mut s, rules[i].mapping_id.as_str());
                append(&mut s, " ");
                append(&mut s, rules[i].kind.as_str());
                append(&mut s, "\n");
                i = i + 1;
            }
            assert(rules@.take(rules.len() as int) == rules@);
        },
        Err(e) => {
            append(&mut s, "live rules: unavailable (");
            append(&mut s, e.as_str());
            append(&mut s, ")\n");
        },
    }
    s
}

/// The detail of one probe line: the latency as shown and the method, or
/// why the target is unreachable.
pub open spec fn probe_detail_text(shown: Seq<char>, reached: bool, method: Seq<char>, error: Option<Seq<char>>) -> Seq<char> {
    if reached {
        shown + " ("@ + method + ")"@
    } else {
        match error {
            Some(e) => "unreachable ("@ + method + "): "@ + e,
            None => "unreachable"@,
        }
    }
}

/// The line `probe` prints for mapping `m`, whose probe gave `r`; `shown`
/// is the latency as the probe result displays it.
pub fn probe_line(m: &Mapping, r: &crate::probe::ProbeResult, shown: &str) -> (t: String)
    ensures
        t@ == m.id@ + "\t"@ + m.target_ip@ + ":"@ + dec_text(m.target_port as nat) + "\t"@
            + probe_detail_text(
            shown@,
            r.latency is Some,
            r.method@,
            match r.error {
                Some(e) => Some(e@),
                None => None,
            },
        ) + "\n"@,
{
    let mut s = owned(m.id.as_str());
    append(&mut s, "\t");
    append(&mut s, m.target_ip.as_str());
    append(&mut s, ":");
    append(&mut s, u64_text(m.target_port as u64).as_str());
    append(&mut s, "\t");
    if r.latency.is_some() {
        append(&mut s, shown);
        append(&mut s, " (");
        append(&mut s, r.method);
        append(&mut s, ")");
    } else {
        match &r.error {
            Some(e) => {
                append(&mut s, "unreachable (");
                append(&mut s, r.method);
                append(&mut s, "): ");
                append(&mut s, e.as_str());
            },
            None => {
                append(&mut s, "unreachable");
            },
        }
    }
    append(&mut s, "\n");
    s
}

/// The mappings with id `id` (`with` true) or without it (`with` false),
/// in order.
fn select_by_id(ms: &Vec<Mapping>, id: &str, with: bool) -> (r: Vec<Mapping>)
    ensures
        r@ == if with {
            with_id(ms@, id@)
        } else {
            without_id(ms@, id@)
        },
{
    let mut r: Vec<Mapping> = Vec::new();
    let mut i: usize = 0;
    while i < ms.len()
        invariant
            i <= ms.len(),
            r@ == if with {
                with_id(ms@.take(i as int), id@)
            } else {
                without_id(ms@.take(i as int), id@)
            },
        decreases ms.len() - i,
    {
        assert(ms@.take(i as int + 1).drop_last() == ms@.take(i as int));
        assert(ms@.take(i as int + 1).last() == ms@[i as int]);
        if str_eq(ms[i].id.as_str(), id) == with {
            r.push(ms[i].duplicate());
        }
        i = i + 1;
    }
    assert(ms@.take(ms.len() as int) == ms@);
    r
}

/// What the caller does after the library's part of a command.
#[derive(Debug)]
pub enum Outcome {
    /// Write `save` as the config file when there is one, then print `text`.
    Done { save: Option<Config>, text: String },
    /// The command failed with this message.
    Failed(String),
    /// Apply this config's rules to the kernel, then print [`apply_text`]
    /// of the report.
    Apply(Config),
    /// List the live rules, then print [`status_text`].
    Status(Config),
    /// Probe these mappings' targets and print a [`probe_line`] for each.
    Probe(Vec<Mapping>),
    /// Run the daemon with this config.
    Daemon(Config),
    /// Open the terminal UI.
    Tui,
}

/// `r` writes config `c` with mappings `ms` and prints `text`.
pub open spec fn saves(r: Outcome, c: Config, ms: Seq<Mapping>, text: Seq<char>) -> bool {
    &&& r matches Outcome::Done { save: Some(n), text: t }
    &&& n == Config { mappings: n.mappings, ..c }
    &&& n.mappings@ == ms
    &&& t@ == text
}

/// `r` writes nothing and prints `text`.
pub open spec fn prints(r: Outcome, text: Seq<char>) -> bool {
    r matches Outcome::Done { save: None, text: t } && t@ == text
}

/// `r` fails with message `msg`.
pub open spec fn fails(r: Outcome, msg: Seq<char>) -> bool {
    r matches Outcome::Failed(e) && e@ == msg
}

/// `r` is the outcome of setting flag `enabled` (or `masquerade` when
/// `masq`) of mapping `id` to `v`.
pub open spec fn flag_outcome(c: Config, id: Seq<char>, masq: bool, v: bool, r: Outcome) -> bool {
    match spec_mapping_index(c.mappings@, id) {
        None => fails(r, not_found_text(id)),
        Some(i) => saves(
            r,
            c,
            c.mappings@.update(
                i,
                if masq {
                    Mapping { masquerade: v, ..c.mappings@[i] }
                } else {
                    Mapping { enabled: v, ..c.mappings@[i] }
                },
            ),
            "updated: "@ + id + if masq {
                " masquerade="@
            } else {
                " enabled="@
            } + bool_text(v) + "\n"@,
        ),
    }
}

/// `r` is the outcome of command `cmd` on the loaded config `c`.
pub open spec fn command_outcome(c: Config, cmd: Commands, r: Outcome) -> bool {
    match cmd {
        Commands::List => prints(r, list_text(c.mappings@)),
        Commands::Add(a) => if id_exists(c.mappings@, a.id@) {
            fails(r, "mapping id already exists: "@ + a.id@)
        } else {
            saves(
                r,
                c,
                c.mappings@.push(added_mapping(a, c.nftables.default_masquerade)),
                "added: "@ + a.id@ + "\n"@,
            )
        },
        Commands::SetFields(a) => match spec_mapping_index(c.mappings@, a.id@) {
            None => fails(r, not_found_text(a.id@)),
            Some(i) => saves(
                r,
                c,
                c.mappings@.update(i, fields_set(c.mappings@[i], a)),
                "updated: "@ + a.id@ + "\n"@,
            ),
        },
        Commands::Enable { id } => flag_outcome(c, id@, false, true, r),
        Commands::Disable { id } => flag_outcome(c, id@, false, false, r),
        Commands::Masquerade { id, enabled } => flag_outcome(c, id@, true, enabled, r),
        Commands::Delete { id } => if id_exists(c.mappings@, id@) {
            saves(r, c, without_id(c.mappings@, id@), "deleted: "@ + id@ + "\n"@)
        } else {
            fails(r, not_found_text(id@))
        },
        Commands::Config(a) => {
            let n = Config { prometheus: prometheus_set(c.prometheus, a), ..c };
            let changed = a.prometheus_enabled is Some || a.prometheus_listen_address is Some
                || a.prometheus_path is Some;
            &&& r matches Outcome::Done { save, text }
            &&& text@ == prometheus_text(n.prometheus)
            &&& save == if changed {
                Some(n)
            } else {
                None
            }
        },
        Commands::Check => match spec_desired_rules(c) {
            Err(f) => fails(r, fault_text(f)),
            Ok(rules) => prints(r, check_text(rules.len(), c.mappings@.len())),
        },
        Commands::Plan => match spec_desired_rules(c) {
            Err(f) => fails(r, fault_text(f)),
            Ok(rules) => prints(r, plan_text(c, rules)),
        },
        Commands::Apply => r == Outcome::Apply(c),
        Commands::Status => r == Outcome::Status(c),
        Commands::Probe { id } => match id {
            Some(want) => if with_id(c.mappings@, want@).len() == 0 {
                fails(r, not_found_text(want@))
            } else {
                r matches Outcome::Probe(v) && v@ == with_id(c.mappings@, want@)
            },
            None => if c.mappings@.len() == 0 {
                prints(r, "no mappings\n"@)
            } else {
                r matches Outcome::Probe(v) && v@ == c.mappings@
            },
        },
        Commands::Daemon => r == Outcome::Daemon(c),
        Commands::Tui => r is Tui,
    }
}

fn set_flag(cfg: Config, id: String, masq: bool, v: bool) -> (r: Outcome)
    ensures
        flag_outcome(cfg, id@, masq, v, r),
{
    let mut cfg = cfg;
    match mapping_index(&cfg, id.as_str()) {
        None => Outcome::Failed(not_found(id.as_str())),
        Some(i) => {
            let mut m = cfg.mappings[i].duplicate();
            let mut text = owned("updated: ");
            append(&mut text, id.as_str());
            if masq {
                m.masquerade = v;
                append(&mut text, " masquerade=");
            } else {
                m.enabled = v;
                append(&mut text, " enabled=");
            }
            append(&mut text, bool_string(v).as_str());
            append(&mut text, "\n");
            cfg.mappings.set(i, m);
            Outcome::Done { save: Some(cfg), text }
        },
    }
}

fn add_mapping(cfg: Config, a: AddArgs) -> (r: Outcome)
    ensures
        command_outcome(cfg, Commands::Add(a), r),
{
    let mut cfg = cfg;
    let id = a.id.clone();
    match mapping_index(&cfg, id.as_str()) {
        Some(_) => {
            let mut msg = owned("mapping id already exists: ");
            append(&mut msg, id.as_str());
            Outcome::Failed(msg)
        },
        None => {
            let masquerade = match a.masquerade {
                Some(b) => b,
                None => cfg.nftables.default_masquerade,
            };
            cfg.mappings.push(
                Mapping {
                    id: a.id,
                    name: a.name,
                    protocol: a.proto,
                    listen_ip: a.listen_ip,
                    listen_port: a.listen_port,
                    target_ip: a.target_ip,
                    target_port: a.target_port,
                    enabled: a.enabled,
                    masquerade,
                    description: a.description,
                },
            );
            let mut text = owned("added: ");
            append(&mut text, id.as_str());
            append(&mut text, "\n");
            Outcome::Done { save: Some(cfg), text }
        },
    }
}

fn set_mapping(cfg: Config, a: SetArgs) -> (r: Outcome)
    ensures
        command_outcome(cfg, Commands::SetFields(a), r),
{
    let mut cfg = cfg;
    let id = a.id.clone();
    match mapping_index(&cfg, id.as_str()) {
        None => Outcome::Failed(not_found(id.as_str())),
        Some(i) => {
            let mut m = cfg.mappings[i].duplicate();
            set_fields(&mut m, a);
            cfg.mappings.set(i, m);
            let mut text = owned("updated: ");
            append(&mut text, id.as_str());
            append(&mut text, "\n");
            Outcome::Done { save: Some(cfg), text }
        },
    }
}

fn delete_mapping(cfg: Config, id: String) -> (r: Outcome)
    ensures
        command_outcome(cfg, Commands::Delete { id }, r),
{
    let mut cfg = cfg;
    proof {
        lemma_id_split(cfg.mappings@, id@);
    }
    let kept = select_by_id(&cfg.mappings, id.as_str(), false);
    if kept.len() == cfg.mappings.len() {
        return Outcome::Failed(not_found(id.as_str()));
    }
    cfg.mappings = kept;
    let mut text = owned("deleted: ");
    append(&mut text, id.as_str());
    append(&mut text, "\n");
    Outcome::Done { save: Some(cfg), text }
}

fn configure(cfg: Config, a: ConfigArgs) -> (r: Outcome)
    ensures
        command_outcome(cfg, Commands::Config(a), r),
{
    let mut cfg = cfg;
    let changed = a.prometheus_enabled.is_some() || a.prometheus_listen_address.is_some()
        || a.prometheus_path.is_some();
    let ConfigArgs { prometheus_enabled, prometheus_listen_address, prometheus_path } = a;
    if let Some(v) = prometheus_enabled {
        cfg.prometheus.enabled = v;
    }
    if let Some(v) = prometheus_listen_address {
        cfg.prometheus.listen_address = v;
    }
    if let Some(v) = prometheus_path {
        cfg.prometheus.path = v;
    }
    let mut text = owned("prometheus.enabled=");
    append(&mut text, bool_string(cfg.prometheus.enabled).as_str());
    append(&mut text, "\nprometheus.listen_address=");
    append(&mut text, cfg.prometheus.listen_address.as_str());
    append(&mut text, "\nprometheus.path=");
    append(&mut text, cfg.prometheus.path.as_str());
    append(&mut text, "\n");
    Outcome::Done {
        save: if changed {
            Some(cfg)
        } else {
            None
        },
        text,
    }
}

fn check(cfg: &Config) -> (r: Outcome)
    ensures
        command_outcome(*cfg, Commands::Check, r),
{
    match desired_rules(cfg) {
        Err(e) => Outcome::Failed(e.message()),
        Ok(rules) => {
            let mut text = owned("config: ok\nrules: ");
            append(&mut text, u64_text(rules.len() as u64).as_str());
            append(&mut text, " (buildable)\nmappings: ");
            append(&mut text, u64_text(cfg.mappings.len() as u64).as_str());
            append(&mut text, "\nnote: kernel state is checked by `apply` (netlink, atomic)\n");
            Outcome::Done { save: None, text }
        },
    }
}

fn plan(cfg: &Config) -> (r: Outcome)
    ensures
        command_outcome(*cfg, Commands::Plan, r),
{
    let rules = match desired_rules(cfg) {
        Err(e) => {
            return Outcome::Failed(e.message());
        },
        Ok(rules) => rules,
    };
    let ghost rv = rule_views(rules@);
    let mut text = owned("desired rules: ");
    append(&mut text, u64_text(rules.len() as u64).as_str());
    append(&mut text, "\n\n");
    let ghost top = text@;
    let mut i: usize = 0;
    while i < rules.len()
        invariant
            i <= rules.len(),
            rv == rule_views(rules@),
            text@ == top + plan_lines(rv.take(i as int)),
        decreases rules.len() - i,
    {
        assert(rv.take(i as int + 1).drop_last() == rv.take(i as int));
        append(&mut text, "+ ");
        append(&mut text, rules[i].mapping_id.as_str());
        append(&mut text, " ");
        append(&mut text, rules[i].kind.as_str());
        append(&mut text, "\n");
        i = i + 1;
    }
    assert(rv.take(rules.len() as int) == rv);
    append(&mut text, "\n--- ruleset ---\n");
    match render_ruleset(cfg) {
        Err(e) => Outcome::Failed(e.message()),
        Ok(rs) => {
            append(&mut text, rs.as_str());
            Outcome::Done { save: None, text }
        },
    }
}

fn probe_targets(cfg: Config, id: Option<String>) -> (r: Outcome)
    ensures
        command_outcome(cfg, Commands::Probe { id }, r),
{
    match id {
        Some(want) => {
            let targets = select_by_id(&cfg.mappings, want.as_str(), true);
            if targets.len() == 0 {
                Outcome::Failed(not_found(want.as_str()))
            } else {
                Outcome::Probe(targets)
            }
        },
        None => {
            if cfg.mappings.len() == 0 {
                Outcome::Done { save: None, text: owned("no mappings\n") }
            } else {
                Outcome::Probe(cfg.mappings)
            }
        },
    }
}

/// Runs command `command` on the loaded config `cfg`: the config it changes
/// (to be written), the text it prints, or the work left to the caller.
pub fn run(command: Commands, cfg: Config) -> (r: Outcome)
    ensures
        command_outcome(cfg, command, r),
{
    match command {
        Commands::List => Outcome::Done { save: None, text: list(&cfg) },
        Commands::Add(a) => add_mapping(cfg, a),
        Commands::SetFields(a) => set_mapping(cfg, a),
        Commands::Enable { id } => set_flag(cfg, id, false, true),
        Commands::Disable { id } => set_flag(cfg, id, false, false),
        Commands::Masquerade { id, enabled } => set_flag(cfg, id, true, enabled),
        Commands::Delete { id } => delete_mapping(cfg, id),
        Commands::Config(a) => configure(cfg, a),
        Commands::Check => check(&cfg),
        Commands::Plan => plan(&cfg),
        Commands::Apply => Outcome::Apply(cfg),
        Commands::Status => Outcome::Status(cfg),
        Commands::Probe { id } => probe_targets(cfg, id),
        Commands::Daemon => Outcome::Daemon(cfg),
        Commands::Tui => Outcome::Tui,
    }
}

/// `n` is `m` after `set` with arguments `a`, field by field: the id stays,
/// each field given takes the given value, each field left out keeps its old
/// one.
pub open spec fn set_applied(m: Mapping, n: Mapping, a: SetArgs) -> bool {
    &&& n.id == m.id
    &&& (a.name matches Some(v) ==> n.name == v)
    &&& (a.name is None ==> n.name == m.name)
    &&& (a.proto matches Some(v) ==> n.protocol == v)
    &&& (a.proto is None ==> n.protocol == m.protocol)
    &&& (a.listen_ip matches Some(v) ==> n.listen_ip == v)
    &&& (a.listen_ip is None ==> n.listen_ip == m.listen_ip)
    &&& (a.listen_port matches Some(v) ==> n.listen_port == v)
    &&& (a.listen_port is None ==> n.listen_port == m.listen_port)
    &&& (a.target_ip matches Some(v) ==> n.target_ip == v)
    &&& (a.target_ip is None ==> n.target_ip == m.target_ip)
    &&& (a.target_port matches Some(v) ==> n.target_port == v)
    &&& (a.target_port is None ==> n.target_port == m.target_port)
    &&& (a.enabled matches Some(v) ==> n.enabled == v)
    &&& (a.enabled is None ==> n.enabled == m.enabled)
    &&& (a.masquerade matches Some(v) ==> n.masquerade == v)
    &&& (a.masquerade is None ==> n.masquerade == m.masquerade)
    &&& (a.description matches Some(v) ==> n.description == v)
    &&& (a.description is None ==> n.description == m.description)
}

/// `set` on an id that no mapping has fails with the not-found message and
/// writes nothing.
pub proof fn lemma_set_unknown_id(c: Config, a: SetArgs, r: Outcome)
    requires
        command_outcome(c, Commands::SetFields(a), r),
        !id_exists(c.mappings@, a.id@),
    ensures
        fails(r, not_found_text(a.id@)),
{
    lemma_mapping_index(c.mappings@, a.id@);
    if let Some(i) = spec_mapping_index(c.mappings@, a.id@) {
        assert(c.mappings@[i].id@ == a.id@);
    }
}

/// `set` on the first mapping `i` with the given id writes the config back
/// with that mapping changed as the arguments say (each field given holds
/// the given value, the others keep theirs), every other mapping and setting
/// as it was, and reports `updated: <id>`.
pub proof fn lemma_set_updates_fields(c: Config, a: SetArgs, r: Outcome, i: int)
    requires
        command_outcome(c, Commands::SetFields(a), r),
        0 <= i < c.mappings@.len(),
        c.mappings@[i].id@ == a.id@,
        forall|j: int| 0 <= j < i ==> (#[trigger] c.mappings@[j]).id@ != a.id@,
    ensures
        r matches Outcome::Done { save: Some(n), text } && {
            &&& n == Config { mappings: n.mappings, ..c }
            &&& n.mappings@.len() == c.mappings@.len()
            &&& set_applied(c.mappings@[i], n.mappings@[i], a)
            &&& forall|j: int|
                0 <= j < c.mappings@.len() && j != i ==> #[trigger] n.mappings@[j]
                    == c.mappings@[j]
            &&& text@ == "updated: "@ + a.id@ + "\n"@
        },
{
    lemma_mapping_index(c.mappings@, a.id@);
    assert(spec_mapping_index(c.mappings@, a.id@) == Some(i)) by {
        if let Some(k) = spec_mapping_index(c.mappings@, a.id@) {
            if k < i {
                assert(c.mappings@[k].id@ != a.id@);
            }
            if k > i {
                assert(c.mappings@[i].id@ != a.id@);
            }
        }
    }
}

/// `enable`, `disable` and `masquerade` on the first mapping `i` with the
/// given id write the config back with only that flag of that mapping
/// changed (`enable` sets `enabled`, `disable` clears it, `masquerade` sets
/// `masquerade` to the value given); every other mapping and setting stays.
pub proof fn lemma_flag_commands(c: Config, cmd: Commands, r: Outcome, i: int)
    requires
        command_outcome(c, cmd, r),
        0 <= i < c.mappings@.len(),
        match cmd {
            Commands::Enable { id } => c.mappings@[i].id@ == id@ && forall|j: int|
                0 <= j < i ==> (#[trigger] c.mappings@[j]).id@ != id@,
            Commands::Disable { id } => c.mappings@[i].id@ == id@ && forall|j: int|
                0 <= j < i ==> (#[trigger] c.mappings@[j]).id@ != id@,
            Commands::Masquerade { id, enabled: _ } => c.mappings@[i].id@ == id@ && forall|j: int|
                0 <= j < i ==> (#[trigger] c.mappings@[j]).id@ != id@,
            _ => false,
        },
    ensures
        r matches Outcome::Done { save: Some(n), text: _ } && {
            &&& n == (Config { mappings: n.mappings, ..c })
            &&& n.mappings@.len() == c.mappings@.len()
            &&& forall|j: int|
                0 <= j < c.mappings@.len() && j != i ==> #[trigger] n.mappings@[j]
                    == c.mappings@[j]
            &&& match cmd {
                Commands::Enable { id: _ } => n.mappings@[i] == (Mapping {
                    enabled: true,
                    ..c.mappings@[i]
                }),
                Commands::Disable { id: _ } => n.mappings@[i] == (Mapping {
                    enabled: false,
                    ..c.mappings@[i]
                }),
                Commands::Masquerade { id: _, enabled } => n.mappings@[i] == (Mapping {
                    masquerade: enabled,
                    ..c.mappings@[i]
                }),
                _ => false,
            }
        },
{
    let id: Seq<char> = match cmd {
        Commands::Enable { id } => id@,
        Commands::Disable { id } => id@,
        Commands::Masquerade { id, enabled: _ } => id@,
        _ => Seq::empty(),
    };
    lemma_mapping_index(c.mappings@, id);
    assert(spec_mapping_index(c.mappings@, id) == Some(i)) by {
        if let Some(k) = spec_mapping_index(c.mappings@, id) {
            if k < i {
                assert(c.mappings@[k].id@ != id);
            }
            if k > i {
                assert(c.mappings@[i].id@ != id);
            }
        }
    }
}

proof fn lemma_without_absent(ms: Seq<Mapping>, id: Seq<char>)
    requires
        !id_exists(ms, id),
    ensures
        without_id(ms, id) == ms,
    decreases ms.len(),
{
    if ms.len() > 0 {
        let init = ms.drop_last();
        assert(!id_exists(init, id)) by {
            if id_exists(init, id) {
                let j = choose|j: int| 0 <= j < init.len() && (#[trigger] init[j]).id@ == id;
                assert(ms[j] == init[j]);
            }
        }
        lemma_without_absent(init, id);
        assert(ms[ms.len() - 1].id@ != id);
        assert(init.push(ms.last()) =~= ms);
    }
}

/// `delete` undoes `add`: deleting the mapping just added leaves the config
/// written by the delete equal to the one before the add.
pub proof fn lemma_add_then_delete(c: Config, a: AddArgs, r1: Outcome, id: String, r2: Outcome)
    requires
        command_outcome(c, Commands::Add(a), r1),
        (r1 matches Outcome::Done { save: Some(c1), text: _ } && command_outcome(
            c1,
            Commands::Delete { id },
            r2,
        )),
        id@ == a.id@,
    ensures
        (r2 matches Outcome::Done { save: Some(c2), text: _ } && c2 == (Config {
            mappings: c2.mappings,
            ..c
        }) && c2.mappings@ == c.mappings@),
{
    let m = added_mapping(a, c.nftables.default_masquerade);
    let ms = c.mappings@;
    let pushed = ms.push(m);
    assert(!id_exists(ms, a.id@));
    assert(pushed[ms.len() as int] == m);
    assert(id_exists(pushed, id@));
    lemma_without_absent(ms, a.id@);
    assert(pushed.drop_last() =~= ms);
}

} // verus!
