//! TUI application state and update logic.

use vstd::prelude::*;

use crate::config::{
    config_ok, fault_text, fits_table, lemma_validate_fault_iff, lemma_validate_iff,
    mapping_fault, parts_ok, same_endpoint, spec_validate, validate, validate_fault,
};
use crate::nft::ruleset::spec_safe_id;
use crate::model::{is_default_config, protocol_text, Config, Mapping, Protocol};
use crate::nft::ApplyReport;
use crate::probe::ProbeResult;
use crate::text::{
    append, bool_string, bool_text, dec_text, owned, parse_bool, parse_u16, spec_parse_bool,
    spec_parse_u16, str_eq, trim, trim_ws, u64_text, chars_of, ascii_lower, is_ws,
    lemma_dec_text_value, no_ws,
};
use crate::model::{spec_parse_protocol, protocol_error_text};
use crate::ufw;

verus! {

/// How a form field is edited.
#[derive(Debug, Clone, Copy, PartialEq, Eq, Structural)]
pub enum FieldKind {
    Text,
    Proto,
    Bool,
}

pub struct FieldSpec {
    pub label: &'static str,
    pub kind: FieldKind,
}

/// The number of fields of the mapping form.
pub const FIELD_COUNT: usize = 10;

/// How form field `i` is edited: the protocol toggles, `enabled` and
/// `masquerade` toggle, the rest is text.
pub open spec fn spec_field_kind(i: int) -> FieldKind {
    if i == 2 {
        FieldKind::Proto
    } else if i == 7 || i == 8 {
        FieldKind::Bool
    } else {
        FieldKind::Text
    }
}

pub open spec fn field_label(i: int) -> Seq<char> {
    if i == 0 {
        "id"@
    } else if i == 1 {
        "name"@
    } else if i == 2 {
        "protocol"@
    } else if i == 3 {
        "listen_ip"@
    } else if i == 4 {
        "listen_port"@
    } else if i == 5 {
        "target_ip"@
    } else if i == 6 {
        "target_port"@
    } else if i == 7 {
        "enabled"@
    } else if i == 8 {
        "masquerade"@
    } else {
        "description"@
    }
}

/// The form field at position `i`.
pub fn field_spec(i: usize) -> (f: FieldSpec)
    requires
        i < FIELD_COUNT,
    ensures
        f.label@ == field_label(i as int),
        f.kind == spec_field_kind(i as int),
{
    let (label, kind) = if i == 0 {
        ("id", FieldKind::Text)
    } else if i == 1 {
        ("name", FieldKind::Text)
    } else if i == 2 {
        ("protocol", FieldKind::Proto)
    } else if i == 3 {
        ("listen_ip", FieldKind::Text)
    } else if i == 4 {
        ("listen_port", FieldKind::Text)
    } else if i == 5 {
        ("target_ip", FieldKind::Text)
    } else if i == 6 {
        ("target_port", FieldKind::Text)
    } else if i == 7 {
        ("enabled", FieldKind::Bool)
    } else if i == 8 {
        ("masquerade", FieldKind::Bool)
    } else {
        ("description", FieldKind::Text)
    };
    FieldSpec { label, kind }
}

pub struct Form {
    /// `Some(index)` when editing an existing mapping, `None` when adding.
    pub edit_index: Option<usize>,
    pub field: usize,
    pub values: Vec<String>,
}

pub enum Confirm {
    Delete(usize),
    Apply,
}

pub struct App {
    pub config_path: String,
    pub cfg: Config,
    pub selected: usize,
    pub dirty: bool,
    pub status: String,
    pub form: Option<Form>,
    pub confirm: Option<Confirm>,
    pub show_help: bool,
    pub help_scroll: u16,
    pub should_quit: bool,
    /// Latest probe result per mapping id (ids are distinct).
    pub probes: Vec<ProbeResult>,
    /// Mapping ids with an in-flight probe (distinct).
    pub probing: Vec<String>,
}

/// The parts of the state that only key handling itself changes: the help
/// overlay, the quit flag and the config path.
pub open spec fn same_chrome(a: App, b: App) -> bool {
    &&& a.config_path == b.config_path
    &&& a.show_help == b.show_help
    &&& a.help_scroll == b.help_scroll
    &&& a.should_quit == b.should_quit
}

pub open spec fn form_wf(f: Form, n: nat) -> bool {
    &&& f.values@.len() == FIELD_COUNT
    &&& f.field < FIELD_COUNT
    &&& (f.edit_index matches Some(i) ==> i < n)
}

pub open spec fn probe_ids(v: Seq<ProbeResult>) -> Seq<Seq<char>> {
    Seq::new(v.len(), |i: int| v[i].mapping_id@)
}

pub open spec fn string_views(v: Seq<String>) -> Seq<Seq<char>> {
    Seq::new(v.len(), |i: int| v[i]@)
}

pub open spec fn distinct(s: Seq<Seq<char>>) -> bool {
    forall|i: int, j: int| 0 <= i < j < s.len() ==> #[trigger] s[i] != #[trigger] s[j]
}

/// The latest probe result of each mapping id.
pub open spec fn probe_map(v: Seq<ProbeResult>) -> Map<Seq<char>, ProbeResult> {
    Map::new(
        |id: Seq<char>| probe_ids(v).contains(id),
        |id: Seq<char>| v[probe_ids(v).index_of(id)],
    )
}

impl App {
    /// The state every method keeps: a well-formed form, never both the form
    /// and a confirmation open, and no mapping id twice among the probe
    /// results or the in-flight probes.
    pub open spec fn wf(&self) -> bool {
        &&& (self.form matches Some(f) ==> form_wf(f, self.cfg.mappings@.len()))
        &&& (self.form is None || self.confirm is None)
        &&& distinct(probe_ids(self.probes@))
        &&& distinct(string_views(self.probing@))
    }

    pub open spec fn selected_mapping_spec(&self) -> Option<Mapping> {
        if self.selected < self.cfg.mappings@.len() {
            Some(self.cfg.mappings@[self.selected as int])
        } else {
            None
        }
    }

    pub fn selected_mapping(&self) -> (r: Option<&Mapping>)
        ensures
            match r {
                Some(m) => self.selected_mapping_spec() == Some(*m),
                None => self.selected_mapping_spec() is None,
            },
    {
        if self.selected < self.cfg.mappings.len() {
            Some(&self.cfg.mappings[self.selected])
        } else {
            None
        }
    }

    pub fn move_up(&mut self)
        ensures
            moved_up(*old(self), *final(self)),
    {
        if self.selected > 0 {
            self.selected = self.selected - 1;
        }
    }

    pub fn move_down(&mut self)
        ensures
            moved_down(*old(self), *final(self)),
    {
        if self.selected < self.cfg.mappings.len() && self.selected + 1 < self.cfg.mappings.len() {
            self.selected = self.selected + 1;
        }
    }
}

/// `b` is `a` with the selection moved up one row (it stays on the first).
pub open spec fn moved_up(a: App, b: App) -> bool {
    b == App {
        selected: if a.selected > 0 {
            (a.selected - 1) as usize
        } else {
            a.selected
        },
        ..a
    }
}

/// `b` is `a` with the selection moved down one row (it stays on the last).
pub open spec fn moved_down(a: App, b: App) -> bool {
    b == App {
        selected: if a.selected + 1 < a.cfg.mappings@.len() {
            (a.selected + 1) as usize
        } else {
            a.selected
        },
        ..a
    }
}

/// `b` is `a` with only the mappings, the dirty flag and the status changed.
pub open spec fn mappings_edited(a: App, b: App) -> bool {
    &&& b == App { cfg: b.cfg, dirty: b.dirty, status: b.status, ..a }
    &&& b.cfg == Config { mappings: b.cfg.mappings, ..a.cfg }
}

/// `b` is `a` after toggling `enabled` on the selected mapping: flipped,
/// marked unsaved and reported; nothing happens with nothing selected.
pub open spec fn enabled_toggled(a: App, b: App) -> bool {
    if a.selected < a.cfg.mappings@.len() {
        &&& mappings_edited(a, b)
        &&& b.cfg.mappings@ == a.cfg.mappings@.update(
            a.selected as int,
            flip_enabled(a.cfg.mappings@[a.selected as int]),
        )
        &&& b.dirty
        &&& b.status@ == "enabled toggled \u{2014} press w to save"@
    } else {
        b == a
    }
}

/// `b` is `a` after toggling `masquerade` on the selected mapping.
pub open spec fn masquerade_toggled(a: App, b: App) -> bool {
    if a.selected < a.cfg.mappings@.len() {
        &&& mappings_edited(a, b)
        &&& b.cfg.mappings@ == a.cfg.mappings@.update(
            a.selected as int,
            flip_masquerade(a.cfg.mappings@[a.selected as int]),
        )
        &&& b.dirty
        &&& b.status@ == "masquerade toggled \u{2014} press w to save"@
    } else {
        b == a
    }
}

/// A selection kept inside a list of `len` rows (on the last row when it
/// fell off the end, on 0 when the list is empty).
pub open spec fn clamped(sel: usize, len: nat) -> usize {
    if sel >= len {
        if len == 0 {
            0
        } else {
            (len - 1) as usize
        }
    } else {
        sel
    }
}

/// `b` is `a` after deleting the selected mapping: removed, the selection
/// kept in range, marked unsaved and reported; nothing happens with nothing
/// selected.
pub open spec fn selected_deleted(a: App, b: App) -> bool {
    if a.selected < a.cfg.mappings@.len() {
        &&& b == App { cfg: b.cfg, selected: b.selected, dirty: b.dirty, status: b.status, ..a }
        &&& b.cfg == Config { mappings: b.cfg.mappings, ..a.cfg }
        &&& b.cfg.mappings@ == a.cfg.mappings@.remove(a.selected as int)
        &&& b.selected == clamped(a.selected, b.cfg.mappings@.len())
        &&& b.dirty
        &&& b.status@ == "deleted "@ + a.cfg.mappings@[a.selected as int].id@
            + " \u{2014} press w to save"@
    } else {
        b == a
    }
}

/// `b` is `a` with the form opened on a new mapping.
pub open spec fn add_form_opened(a: App, b: App) -> bool {
    &&& b == App { form: b.form, status: b.status, ..a }
    &&& b.form matches Some(f) && f.edit_index is None && f.field == 0 && string_views(f.values@)
        == add_values(a.cfg.mappings@.len(), a.cfg.nftables.default_masquerade)
    &&& b.status@ == "add rule"@
}

/// `b` is `a` with the form opened on the selected mapping; nothing happens
/// with nothing selected.
pub open spec fn edit_form_opened(a: App, b: App) -> bool {
    if a.selected < a.cfg.mappings@.len() {
        &&& b == App { form: b.form, status: b.status, ..a }
        &&& b.form matches Some(f) && f.edit_index == Some(a.selected) && f.field == 0
            && string_views(f.values@) == edit_values(a.cfg.mappings@[a.selected as int])
        &&& b.status@ == "edit rule"@
    } else {
        b == a
    }
}

/// Toggling `enabled` on the selected mapping keeps a valid config valid.
pub proof fn lemma_toggle_enabled_keeps_valid(a: App, b: App)
    requires
        enabled_toggled(a, b),
        spec_validate(a.cfg) is None,
    ensures
        spec_validate(b.cfg) is None,
{
    lemma_validate_iff(a.cfg);
    lemma_validate_iff(b.cfg);
    if a.selected < a.cfg.mappings@.len() {
        let ms = a.cfg.mappings@;
        let ns = b.cfg.mappings@;
        assert forall|i: int| 0 <= i < ns.len() implies #[trigger] ns[i] == ms[i] || ns[i]
            == flip_enabled(ms[i]) by {}
        assert(config_ok(b.cfg)) by {
            assert forall|i: int, j: int| 0 <= i < j < ns.len() implies (#[trigger] ns[i]).id@
                != (#[trigger] ns[j]).id@ && !same_endpoint(ns[i], ns[j]) by {
                assert(ms[i].id@ != ms[j].id@ && !same_endpoint(ms[i], ms[j]));
            }
            assert forall|i: int| 0 <= i < ns.len() implies mapping_fault(#[trigger] ns[i]) is None
                && spec_safe_id(ns[i].id@) && fits_table(b.cfg.nftables.family@, ns[i]) by {
                assert(mapping_fault(ms[i]) is None && spec_safe_id(ms[i].id@) && fits_table(
                    a.cfg.nftables.family@,
                    ms[i],
                ));
            }
        }
    }
}

/// Toggling `masquerade` on the selected mapping keeps a valid config valid.
pub proof fn lemma_toggle_masquerade_keeps_valid(a: App, b: App)
    requires
        masquerade_toggled(a, b),
        spec_validate(a.cfg) is None,
    ensures
        spec_validate(b.cfg) is None,
{
    lemma_validate_iff(a.cfg);
    lemma_validate_iff(b.cfg);
    if a.selected < a.cfg.mappings@.len() {
        let ms = a.cfg.mappings@;
        let ns = b.cfg.mappings@;
        assert forall|i: int| 0 <= i < ns.len() implies #[trigger] ns[i] == ms[i] || ns[i]
            == flip_masquerade(ms[i]) by {}
        assert(config_ok(b.cfg)) by {
            assert forall|i: int, j: int| 0 <= i < j < ns.len() implies (#[trigger] ns[i]).id@
                != (#[trigger] ns[j]).id@ && !same_endpoint(ns[i], ns[j]) by {
                assert(ms[i].id@ != ms[j].id@ && !same_endpoint(ms[i], ms[j]));
            }
            assert forall|i: int| 0 <= i < ns.len() implies mapping_fault(#[trigger] ns[i]) is None
                && spec_safe_id(ns[i].id@) && fits_table(b.cfg.nftables.family@, ns[i]) by {
                assert(mapping_fault(ms[i]) is None && spec_safe_id(ms[i].id@) && fits_table(
                    a.cfg.nftables.family@,
                    ms[i],
                ));
            }
        }
    }
}

/// Deleting the selected mapping keeps a valid config valid.
pub proof fn lemma_delete_keeps_valid(a: App, b: App)
    requires
        selected_deleted(a, b),
        spec_validate(a.cfg) is None,
    ensures
        spec_validate(b.cfg) is None,
{
    lemma_validate_iff(a.cfg);
    lemma_validate_iff(b.cfg);
    if a.selected < a.cfg.mappings@.len() {
        let ms = a.cfg.mappings@;
        let ns = b.cfg.mappings@;
        let s = a.selected as int;
        assert forall|i: int| 0 <= i < ns.len() implies #[trigger] ns[i] == if i < s {
            ms[i]
        } else {
            ms[i + 1]
        } by {}
        assert(config_ok(b.cfg)) by {
            assert forall|i: int, j: int| 0 <= i < j < ns.len() implies (#[trigger] ns[i]).id@
                != (#[trigger] ns[j]).id@ && !same_endpoint(ns[i], ns[j]) by {
                let i2 = if i < s {
                    i
                } else {
                    i + 1
                };
                let j2 = if j < s {
                    j
                } else {
                    j + 1
                };
                assert(ms[i2].id@ != ms[j2].id@ && !same_endpoint(ms[i2], ms[j2]));
            }
            assert forall|i: int| 0 <= i < ns.len() implies mapping_fault(#[trigger] ns[i]) is None
                && spec_safe_id(ns[i].id@) && fits_table(b.cfg.nftables.family@, ns[i]) by {
                let i2 = if i < s {
                    i
                } else {
                    i + 1
                };
                assert(mapping_fault(ms[i2]) is None && spec_safe_id(ms[i2].id@) && fits_table(
                    a.cfg.nftables.family@,
                    ms[i2],
                ));
            }
        }
    }
}

/// Committing the form keeps a valid config valid: the config changes only
/// to one that passes validation.
pub proof fn lemma_commit_keeps_valid(a: App, b: App)
    requires
        form_committed(a, b),
    ensures
        b.cfg == a.cfg || spec_validate(b.cfg) is None,
{
    if let Some(f) = a.form {
        let v = string_views(f.values@);
        if let Ok(p) = spec_form_values(v) {
            let m = choose|m: Mapping| #[trigger] mapping_of_form(m, v, p) && ({
                let ms = committed(a.cfg.mappings@, f.edit_index, m);
                match validate_fault(a.cfg.nftables, a.cfg.prometheus, ms) {
                    Some(fault) => form_refused(a, b, fault_text(fault)),
                    None => {
                        &&& b.cfg == Config { mappings: b.cfg.mappings, ..a.cfg }
                        &&& b.cfg.mappings@ == ms
                    },
                }
            });
            let ms = committed(a.cfg.mappings@, f.edit_index, m);
            if validate_fault(a.cfg.nftables, a.cfg.prometheus, ms) is None {
                assert(spec_validate(b.cfg) == validate_fault(
                    a.cfg.nftables,
                    a.cfg.prometheus,
                    ms,
                ));
            }
        }
    }
}


/// Two mappings with the same field values (texts compared by content).
pub open spec fn same_fields(a: Mapping, b: Mapping) -> bool {
    &&& a.id@ == b.id@
    &&& a.name@ == b.name@
    &&& a.protocol == b.protocol
    &&& a.listen_ip@ == b.listen_ip@
    &&& a.listen_port == b.listen_port
    &&& a.target_ip@ == b.target_ip@
    &&& a.target_port == b.target_port
    &&& a.enabled == b.enabled
    &&& a.masquerade == b.masquerade
    &&& a.description@ == b.description@
}

/// The text fields of a mapping carry no white space at their ends.
pub open spec fn trimmed(m: Mapping) -> bool {
    &&& trim_ws(m.id@) == m.id@
    &&& trim_ws(m.name@) == m.name@
    &&& trim_ws(m.listen_ip@) == m.listen_ip@
    &&& trim_ws(m.target_ip@) == m.target_ip@
    &&& trim_ws(m.description@) == m.description@
}

proof fn lemma_trim_no_ws(s: Seq<char>)
    requires
        no_ws(s),
    ensures
        trim_ws(s) == s,
{
    if s.len() > 0 {
        assert(!is_ws(s[0]));
        assert(!is_ws(s[s.len() - 1]));
    }
}

/// The edit form of a mapping parses back to that mapping's values.
proof fn lemma_edit_values_parse(m: Mapping)
    ensures
        spec_form_values(edit_values(m)) == Ok::<_, Seq<char>>(
            (m.protocol, m.listen_port, m.target_port, m.enabled, m.masquerade),
        ),
        trim_ws(edit_values(m)[2]) == edit_values(m)[2],
{
    reveal_strlit("tcp");
    reveal_strlit("udp");
    reveal_strlit("true");
    reveal_strlit("false");
    let v = edit_values(m);
    lemma_dec_text_value(m.listen_port as nat);
    lemma_dec_text_value(m.target_port as nat);
    lemma_trim_no_ws(dec_text(m.listen_port as nat));
    lemma_trim_no_ws(dec_text(m.target_port as nat));
    let pt = protocol_text(m.protocol);
    assert(no_ws(pt));
    lemma_trim_no_ws(pt);
    assert(ascii_lower(pt) =~= pt);
    assert(protocol_text(Protocol::Tcp)[0] != protocol_text(Protocol::Udp)[0]);
    assert(no_ws(bool_text(m.enabled)));
    assert(no_ws(bool_text(m.masquerade)));
    lemma_trim_no_ws(bool_text(m.enabled));
    lemma_trim_no_ws(bool_text(m.masquerade));
    assert("true"@ != "false"@) by {
        assert("true"@.len() != "false"@.len());
    }
    assert(v[2] == pt && v[4] == dec_text(m.listen_port as nat) && v[6] == dec_text(
        m.target_port as nat,
    ) && v[7] == bool_text(m.enabled) && v[8] == bool_text(m.masquerade));
    assert(spec_parse_u16(dec_text(m.listen_port as nat)) == Some(m.listen_port));
    assert(spec_parse_u16(dec_text(m.target_port as nat)) == Some(m.target_port));
}

/// Opening the edit form on the selected mapping of a valid config and
/// committing it unchanged gives back the same mappings and selection,
/// when the mapping's text fields carry no white space at their ends.
pub proof fn lemma_edit_commit_roundtrip(a: App, b: App, c: App)
    requires
        a.selected < a.cfg.mappings@.len(),
        trimmed(a.cfg.mappings@[a.selected as int]),
        spec_validate(a.cfg) is None,
        edit_form_opened(a, b),
        form_committed(b, c),
    ensures
        c.form is None,
        c.selected == a.selected,
        c.cfg.nftables == a.cfg.nftables,
        c.cfg.ufw == a.cfg.ufw,
        c.cfg.prometheus == a.cfg.prometheus,
        c.cfg.mappings@.len() == a.cfg.mappings@.len(),
        forall|i: int|
            0 <= i < a.cfg.mappings@.len() ==> same_fields(
                #[trigger] c.cfg.mappings@[i],
                a.cfg.mappings@[i],
            ),
{
    let ms = a.cfg.mappings@;
    let s = a.selected as int;
    let old_m = ms[s];
    let f = b.form.unwrap();
    let v = string_views(f.values@);
    assert(v == edit_values(old_m));
    lemma_edit_values_parse(old_m);
    let p = (old_m.protocol, old_m.listen_port, old_m.target_port, old_m.enabled, old_m.masquerade);
    assert(spec_form_values(v) == Ok::<_, Seq<char>>(p));
    let m = choose|m: Mapping| #[trigger] mapping_of_form(m, v, p) && ({
        let ns = committed(b.cfg.mappings@, f.edit_index, m);
        match validate_fault(b.cfg.nftables, b.cfg.prometheus, ns) {
            Some(fault) => form_refused(b, c, fault_text(fault)),
            None => {
                &&& c == App {
                    cfg: c.cfg,
                    selected: c.selected,
                    dirty: true,
                    form: None,
                    status: c.status,
                    ..b
                }
                &&& c.cfg == Config { mappings: c.cfg.mappings, ..b.cfg }
                &&& c.cfg.mappings@ == ns
                &&& c.selected == if f.edit_index is None {
                    (ns.len() - 1) as usize
                } else {
                    b.selected
                }
            },
        }
    });
    assert(same_fields(m, old_m));
    let ns = ms.update(s, m);
    assert(committed(b.cfg.mappings@, f.edit_index, m) == ns);
    lemma_validate_iff(a.cfg);
    lemma_validate_fault_iff(a.cfg.nftables, a.cfg.prometheus, ns);
    assert forall|i: int| 0 <= i < ns.len() implies same_fields(#[trigger] ns[i], ms[i]) by {}
    assert(parts_ok(a.cfg.nftables, a.cfg.prometheus, ns)) by {
        assert forall|i: int, j: int| 0 <= i < j < ns.len() implies (#[trigger] ns[i]).id@
            != (#[trigger] ns[j]).id@ && !same_endpoint(ns[i], ns[j]) by {
            assert(same_fields(ns[i], ms[i]) && same_fields(ns[j], ms[j]));
            assert(ms[i].id@ != ms[j].id@ && !same_endpoint(ms[i], ms[j]));
        }
        assert forall|i: int| 0 <= i < ns.len() implies mapping_fault(#[trigger] ns[i]) is None
            && spec_safe_id(ns[i].id@) && fits_table(a.cfg.nftables.family@, ns[i]) by {
            assert(same_fields(ns[i], ms[i]));
            assert(mapping_fault(ms[i]) is None && spec_safe_id(ms[i].id@) && fits_table(
                a.cfg.nftables.family@,
                ms[i],
            ));
        }
    }
}


/// A mapping with `enabled` flipped.
pub open spec fn flip_enabled(m: Mapping) -> Mapping {
    Mapping { enabled: !m.enabled, ..m }
}

/// A mapping with `masquerade` flipped.
pub open spec fn flip_masquerade(m: Mapping) -> Mapping {
    Mapping { masquerade: !m.masquerade, ..m }
}

/// A copy of the mappings.
pub fn copy_mappings(v: &Vec<Mapping>) -> (r: Vec<Mapping>)
    ensures
        r@ == v@,
{
    let mut r: Vec<Mapping> = Vec::new();
    let mut i: usize = 0;
    while i < v.len()
        invariant
            i <= v.len(),
            r@ == v@.take(i as int),
        decreases v.len() - i,
    {
        r.push(v[i].duplicate());
        assert(r@ =~= v@.take(i as int + 1));
        i = i + 1;
    }
    assert(v@.take(v.len() as int) == v@);
    r
}

impl Config {
    /// A field-for-field copy.
    pub fn duplicate(&self) -> (r: Config)
        ensures
            r.nftables == self.nftables,
            r.ufw == self.ufw,
            r.prometheus == self.prometheus,
            r.mappings@ == self.mappings@,
    {
        Config {
            nftables: crate::model::NftablesConfig {
                family: self.nftables.family.clone(),
                table_name: self.nftables.table_name.clone(),
                enable_ip_forward: self.nftables.enable_ip_forward,
                default_masquerade: self.nftables.default_masquerade,
            },
            ufw: crate::model::UfwConfig { manage: self.ufw.manage },
            prometheus: crate::model::PrometheusConfig {
                enabled: self.prometheus.enabled,
                listen_address: self.prometheus.listen_address.clone(),
                path: self.prometheus.path.clone(),
            },
            mappings: copy_mappings(&self.mappings),
        }
    }
}

pub open spec fn apply_counts_text(added: nat, deleted: nat, kept: nat) -> Seq<char> {
    "(added="@ + dec_text(added) + ", deleted="@ + dec_text(deleted) + ", kept="@ + dec_text(kept)
        + ")"@
}

fn apply_counts(added: usize, deleted: usize, kept: usize) -> (r: String)
    ensures
        r@ == apply_counts_text(added as nat, deleted as nat, kept as nat),
{
    let mut s = owned("(added=");
    append(&mut s, u64_text(added as u64).as_str());
    append(&mut s, ", deleted=");
    append(&mut s, u64_text(deleted as u64).as_str());
    append(&mut s, ", kept=");
    append(&mut s, u64_text(kept as u64).as_str());
    append(&mut s, ")");
    s
}

fn prefixed(prefix: &str, msg: &str) -> (r: String)
    ensures
        r@ == prefix@ + msg@,
{
    let mut s = owned(prefix);
    append(&mut s, msg);
    s
}

/// The parsed values of a filled-in form (protocol, listen port, target
/// port, enabled, masquerade), or why it does not parse; checked in this order.
pub open spec fn spec_form_values(v: Seq<Seq<char>>) -> Result<(Protocol, u16, u16, bool, bool), Seq<char>> {
    let lp = spec_parse_u16(trim_ws(v[4]));
    let tp = spec_parse_u16(trim_ws(v[6]));
    let proto = spec_parse_protocol(trim_ws(v[2]));
    let en = spec_parse_bool(trim_ws(v[7]));
    let masq = spec_parse_bool(trim_ws(v[8]));
    if lp is None {
        Err("listen_port must be 1-65535"@)
    } else if tp is None {
        Err("target_port must be 1-65535"@)
    } else if proto is None {
        Err(protocol_error_text(trim_ws(v[2])))
    } else if en is None {
        Err("enabled must be true/false"@)
    } else if masq is None {
        Err("masquerade must be true/false"@)
    } else {
        Ok((proto.unwrap(), lp.unwrap(), tp.unwrap(), en.unwrap(), masq.unwrap()))
    }
}

/// `m` holds the trimmed texts of the form and the given parsed values.
pub open spec fn mapping_of_form(
    m: Mapping,
    v: Seq<Seq<char>>,
    p: (Protocol, u16, u16, bool, bool),
) -> bool {
    &&& m.id@ == trim_ws(v[0])
    &&& m.name@ == trim_ws(v[1])
    &&& m.protocol == p.0
    &&& m.listen_ip@ == trim_ws(v[3])
    &&& m.listen_port == p.1
    &&& m.target_ip@ == trim_ws(v[5])
    &&& m.target_port == p.2
    &&& m.enabled == p.3
    &&& m.masquerade == p.4
    &&& m.description@ == trim_ws(v[9])
}

/// The mapping a filled-in form describes.
pub fn mapping_from_values(v: &Vec<String>) -> (r: Result<Mapping, String>)
    requires
        v@.len() == FIELD_COUNT,
    ensures
        match r {
            Ok(m) => spec_form_values(string_views(v@)) matches Ok(p) && mapping_of_form(
                m,
                string_views(v@),
                p,
            ),
            Err(e) => spec_form_values(string_views(v@)) == Err::<(Protocol, u16, u16, bool, bool), _>(e@),
        },
{
    let ghost sv = string_views(v@);
    assert(forall|i: int| 0 <= i < 10 ==> sv[i] == (#[trigger] v@[i])@);
    let lp = trim(v[4].as_str());
    let listen_port = match parse_u16(&chars_of(lp.as_str())) {
        Some(p) => p,
        None => {
            return Err(owned("listen_port must be 1-65535"));
        },
    };
    let tp = trim(v[6].as_str());
    let target_port = match parse_u16(&chars_of(tp.as_str())) {
        Some(p) => p,
        None => {
            return Err(owned("target_port must be 1-65535"));
        },
    };
    let pr = trim(v[2].as_str());
    let protocol = Protocol::parse_text(pr.as_str())?;
    let en = trim(v[7].as_str());
    let enabled = match parse_bool(en.as_str()) {
        Some(b) => b,
        None => {
            return Err(owned("enabled must be true/false"));
        },
    };
    let mq = trim(v[8].as_str());
    let masquerade = match parse_bool(mq.as_str()) {
        Some(b) => b,
        None => {
            return Err(owned("masquerade must be true/false"));
        },
    };
    Ok(
        Mapping {
            id: trim(v[0].as_str()),
            name: trim(v[1].as_str()),
            protocol,
            listen_ip: trim(v[3].as_str()),
            listen_port,
            target_ip: trim(v[5].as_str()),
            target_port,
            enabled,
            masquerade,
            description: trim(v[9].as_str()),
        },
    )
}

/// The form values an existing mapping is edited with.
pub open spec fn edit_values(m: Mapping) -> Seq<Seq<char>> {
    seq![
        m.id@,
        m.name@,
        protocol_text(m.protocol),
        m.listen_ip@,
        dec_text(m.listen_port as nat),
        m.target_ip@,
        dec_text(m.target_port as nat),
        bool_text(m.enabled),
        bool_text(m.masquerade),
        m.description@,
    ]
}

/// The form values a new mapping starts from, when `n` mappings exist.
pub open spec fn add_values(n: nat, default_masquerade: bool) -> Seq<Seq<char>> {
    seq![
        "rule-"@ + dec_text(n + 1),
        "Rule "@ + dec_text(n + 1),
        "tcp"@,
        "0.0.0.0"@,
        Seq::empty(),
        Seq::empty(),
        Seq::empty(),
        "true"@,
        bool_text(default_masquerade),
        Seq::empty(),
    ]
}

impl App {
    /// A fresh state for the config at `config_path`, then loaded with what
    /// reading it gave.
    pub fn load(config_path: String, loaded: Result<Config, String>) -> (app: App)
        ensures
            app.wf(),
            app.config_path == config_path,
            app.form is None && app.confirm is None,
            !app.dirty,
            !app.show_help && !app.should_quit && app.help_scroll == 0,
            app.probes@.len() == 0 && app.probing@.len() == 0,
            match loaded {
                Ok(cfg) => app.cfg == cfg && app.selected == 0 && app.status@ == "loaded"@,
                Err(e) => is_default_config(app.cfg) && app.selected == 0 && app.status@
                    == "load failed: "@ + e@,
            },
    {
        let mut app = App {
            config_path,
            cfg: Config::default(),
            selected: 0,
            dirty: false,
            status: String::new(),
            form: None,
            confirm: None,
            show_help: false,
            help_scroll: 0,
            should_quit: false,
            probes: Vec::new(),
            probing: Vec::new(),
        };
        assert(probe_ids(app.probes@) =~= Seq::<Seq<char>>::empty());
        assert(string_views(app.probing@) =~= Seq::<Seq<char>>::empty());
        app.reload(loaded);
        app
    }

    /// Takes in a freshly loaded config, or reports why loading failed.
    pub fn reload(&mut self, loaded: Result<Config, String>)
        ensures
            same_chrome(*old(self), *final(self)),
            final(self).form == old(self).form,
            final(self).confirm == old(self).confirm,
            final(self).probes == old(self).probes,
            final(self).probing == old(self).probing,
            final(self).config_path == old(self).config_path,
            final(self).show_help == old(self).show_help,
            final(self).should_quit == old(self).should_quit,
            final(self).help_scroll == old(self).help_scroll,
            match loaded {
                Ok(cfg) => {
                    &&& final(self).cfg == cfg
                    &&& final(self).selected == clamped(old(self).selected, cfg.mappings@.len())
                    &&& !final(self).dirty
                    &&& final(self).status@ == "loaded"@
                },
                Err(e) => {
                    &&& final(self).cfg == old(self).cfg
                    &&& final(self).selected == old(self).selected
                    &&& final(self).dirty == old(self).dirty
                    &&& final(self).status@ == "load failed: "@ + e@
                },
            },
            old(self).wf() && (old(self).form is None || loaded is Err) ==> final(self).wf(),
    {
        match loaded {
            Ok(cfg) => {
                self.cfg = cfg;
                if self.selected >= self.cfg.mappings.len() {
                    self.selected = if self.cfg.mappings.len() == 0 {
                        0
                    } else {
                        self.cfg.mappings.len() - 1
                    };
                }
                self.dirty = false;
                self.status = owned("loaded");
            },
            Err(e) => {
                self.status = prefixed("load failed: ", e.as_str());
            },
        }
    }

    /// Records the outcome of writing the config.
    pub fn save(&mut self, outcome: Result<(), String>)
        ensures
            same_chrome(*old(self), *final(self)),
            final(self).cfg == old(self).cfg,
            final(self).selected == old(self).selected,
            final(self).form == old(self).form,
            final(self).confirm == old(self).confirm,
            final(self).probes == old(self).probes,
            final(self).probing == old(self).probing,
            match outcome {
                Ok(()) => !final(self).dirty && final(self).status@ == "saved"@,
                Err(e) => final(self).dirty == old(self).dirty && final(self).status@
                    == "save failed: "@ + e@,
            },
            old(self).wf() ==> final(self).wf(),
    {
        match outcome {
            Ok(()) => {
                self.dirty = false;
                self.status = owned("saved");
            },
            Err(e) => {
                self.status = prefixed("save failed: ", e.as_str());
            },
        }
    }

    /// Records the outcome of applying the rules: the nftables apply, then,
    /// when it succeeded, the UFW apply.
    pub fn apply(
        &mut self,
        nft: Result<ApplyReport, String>,
        ufw_outcome: Result<ufw::ApplyReport, String>,
    )
        ensures
            *final(self) == (App { status: final(self).status, ..*old(self) }),
            match (nft, ufw_outcome) {
                (Err(e), _) => final(self).status@ == "apply failed: "@ + e@,
                (Ok(_), Err(e)) => final(self).status@ == "ufw apply failed: "@ + e@,
                (Ok(r), Ok(u)) => final(self).status@ == "applied nft "@ + apply_counts_text(
                    r.added as nat,
                    r.deleted as nat,
                    r.kept as nat,
                ) + if old(self).cfg.ufw.manage {
                    "; ufw "@ + apply_counts_text(u.added as nat, u.deleted as nat, u.kept as nat)
                } else {
                    Seq::empty()
                },
            },
            old(self).wf() ==> final(self).wf(),
    {
        match nft {
            Ok(r) => {
                let mut status = owned("applied nft ");
                append(&mut status, apply_counts(r.added, r.deleted, r.kept).as_str());
                match ufw_outcome {
                    Ok(u) => {
                        if self.cfg.ufw.manage {
                            append(&mut status, "; ufw ");
                            append(&mut status, apply_counts(u.added, u.deleted, u.kept).as_str());
                        } else {
                            assert(status@ == status@ + Seq::<char>::empty());
                        }
                    },
                    Err(e) => {
                        self.status = prefixed("ufw apply failed: ", e.as_str());
                        return;
                    },
                }
                self.status = status;
            },
            Err(e) => {
                self.status = prefixed("apply failed: ", e.as_str());
            },
        }
    }

    pub fn toggle_enabled(&mut self)
        ensures
            enabled_toggled(*old(self), *final(self)),
    {
        if self.selected < self.cfg.mappings.len() {
            let mut m = self.cfg.mappings[self.selected].duplicate();
            m.enabled = !m.enabled;
            self.cfg.mappings.set(self.selected, m);
            self.dirty = true;
            self.status = owned("enabled toggled \u{2014} press w to save");
        }
    }

    pub fn toggle_masquerade(&mut self)
        ensures
            masquerade_toggled(*old(self), *final(self)),
    {
        if self.selected < self.cfg.mappings.len() {
            let mut m = self.cfg.mappings[self.selected].duplicate();
            m.masquerade = !m.masquerade;
            self.cfg.mappings.set(self.selected, m);
            self.dirty = true;
            self.status = owned("masquerade toggled \u{2014} press w to save");
        }
    }

    pub fn delete_selected(&mut self)
        ensures
            selected_deleted(*old(self), *final(self)),
            old(self).wf() && old(self).form is None ==> final(self).wf(),
    {
        if self.selected < self.cfg.mappings.len() {
            let m = self.cfg.mappings.remove(self.selected);
            if self.selected >= self.cfg.mappings.len() {
                self.selected = if self.cfg.mappings.len() == 0 {
                    0
                } else {
                    self.cfg.mappings.len() - 1
                };
            }
            self.dirty = true;
            let mut st = owned("deleted ");
            append(&mut st, m.id.as_str());
            append(&mut st, " \u{2014} press w to save");
            self.status = st;
        }
    }

    /// Opens the form for a new mapping.
    pub fn open_add_form(&mut self)
        requires
            old(self).cfg.mappings@.len() < usize::MAX,
        ensures
            add_form_opened(*old(self), *final(self)),
            old(self).wf() && old(self).confirm is None ==> final(self).wf(),
    {
        let n = self.cfg.mappings.len() + 1;
        let ns = u64_text(n as u64);
        let mut values: Vec<String> = Vec::new();
        values.push(prefixed("rule-", ns.as_str()));
        values.push(prefixed("Rule ", ns.as_str()));
        values.push(owned("tcp"));
        values.push(owned("0.0.0.0"));
        values.push(String::new());
        values.push(String::new());
        values.push(String::new());
        values.push(owned("true"));
        values.push(bool_string(self.cfg.nftables.default_masquerade));
        values.push(String::new());
        assert(string_views(values@) =~= add_values(
            self.cfg.mappings@.len(),
            self.cfg.nftables.default_masquerade,
        ));
        self.form = Some(Form { edit_index: None, field: 0, values });
        self.status = owned("add rule");
    }

    /// Opens the form on the selected mapping, if any.
    pub fn open_edit_form(&mut self)
        ensures
            edit_form_opened(*old(self), *final(self)),
            old(self).wf() && old(self).confirm is None ==> final(self).wf(),
    {
        if self.selected >= self.cfg.mappings.len() {
            return;
        }
        let m = &self.cfg.mappings[self.selected];
        let mut values: Vec<String> = Vec::new();
        values.push(m.id.clone());
        values.push(m.name.clone());
        values.push(owned(m.protocol.as_str()));
        values.push(m.listen_ip.clone());
        values.push(u64_text(m.listen_port as u64));
        values.push(m.target_ip.clone());
        values.push(u64_text(m.target_port as u64));
        values.push(bool_string(m.enabled));
        values.push(bool_string(m.masquerade));
        values.push(m.description.clone());
        assert(string_views(values@) =~= edit_values(*m));
        self.form = Some(Form { edit_index: Some(self.selected), field: 0, values });
        self.status = owned("edit rule");
    }
}

/// The mappings after committing form mapping `m`: it replaces the edited
/// mapping, or is appended when adding.
pub open spec fn committed(ms: Seq<Mapping>, edit_index: Option<usize>, m: Mapping) -> Seq<Mapping> {
    match edit_index {
        Some(i) => ms.update(i as int, m),
        None => ms.push(m),
    }
}

/// Seeing a probe result: the id is no longer in flight and its latest result
/// is this one.
pub open spec fn poll_map(m: Map<Seq<char>, ProbeResult>, rs: Seq<ProbeResult>) -> Map<Seq<char>, ProbeResult>
    decreases rs.len(),
{
    if rs.len() == 0 {
        m
    } else {
        poll_map(m, rs.drop_last()).insert(rs.last().mapping_id@, rs.last())
    }
}

proof fn lemma_distinct_push(s: Seq<Seq<char>>, x: Seq<char>)
    requires
        distinct(s),
        !s.contains(x),
    ensures
        distinct(s.push(x)),
{
    assert forall|i: int, j: int| 0 <= i < j < s.push(x).len() implies #[trigger] s.push(x)[i]
        != #[trigger] s.push(x)[j] by {
        if j == s.len() {
            assert(s[i] == s.push(x)[i]);
        } else {
            assert(s[i] == s.push(x)[i] && s[j] == s.push(x)[j]);
        }
    }
}

/// Marks `id` as in flight.
#[verifier::loop_isolation(false)]
fn mark_probing(v: &mut Vec<String>, id: &String)
    requires
        distinct(string_views(old(v)@)),
    ensures
        distinct(string_views(final(v)@)),
        forall|x: Seq<char>|
            #[trigger] string_views(final(v)@).contains(x) <==> (string_views(old(v)@).contains(x)
                || x == id@),
{
    let ghost sv = string_views(v@);
    let mut i: usize = 0;
    while i < v.len()
        invariant
            sv == string_views(v@),
            i <= v.len(),
            forall|q: int| 0 <= q < i ==> (#[trigger] sv[q]) != id@,
        decreases v.len() - i,
    {
        if v[i] == *id {
            assert(sv[i as int] == id@);
            return;
        }
        i = i + 1;
    }
    assert(!sv.contains(id@));
    proof {
        lemma_distinct_push(sv, id@);
    }
    v.push(id.clone());
    let ghost nv = string_views(v@);
    assert(nv =~= sv.push(id@));
    assert forall|x: Seq<char>| #[trigger] nv.contains(x) <==> (sv.contains(x) || x == id@) by {
        if sv.contains(x) {
            let k = choose|k: int| 0 <= k < sv.len() && sv[k] == x;
            assert(nv[k] == x);
        }
        if x == id@ {
            assert(nv[sv.len() as int] == x);
        }
        if nv.contains(x) && x != id@ {
            let k = choose|k: int| 0 <= k < nv.len() && nv[k] == x;
            assert(k < sv.len());
            assert(sv[k] == x);
        }
    }
}

/// Takes `id` out of the in-flight set.
#[verifier::loop_isolation(false)]
fn unmark_probing(v: &mut Vec<String>, id: &String)
    requires
        distinct(string_views(old(v)@)),
    ensures
        distinct(string_views(final(v)@)),
        forall|x: Seq<char>|
            #[trigger] string_views(final(v)@).contains(x) <==> (string_views(old(v)@).contains(x)
                && x != id@),
{
    let ghost sv = string_views(v@);
    let mut i: usize = 0;
    while i < v.len()
        invariant
            sv == string_views(v@),
            i <= v.len(),
            forall|q: int| 0 <= q < i ==> (#[trigger] sv[q]) != id@,
        decreases v.len() - i,
    {
        if v[i] == *id {
            assert(sv[i as int] == id@);
            v.remove(i);
            let ghost nv = string_views(v@);
            assert(nv =~= sv.remove(i as int));
            assert forall|a: int, b: int| 0 <= a < b < nv.len() implies #[trigger] nv[a]
                != #[trigger] nv[b] by {
                let a2 = if a < i { a } else { a + 1 };
                let b2 = if b < i { b } else { b + 1 };
                assert(nv[a] == sv[a2] && nv[b] == sv[b2]);
                assert(sv[a2] != sv[b2]);
            }
            assert forall|x: Seq<char>| #[trigger] nv.contains(x) <==> (sv.contains(x) && x != id@) by {
                if nv.contains(x) {
                    let k = choose|k: int| 0 <= k < nv.len() && nv[k] == x;
                    let k2 = if k < i { k } else { k + 1 };
                    assert(sv[k2] == x);
                    assert(k2 != i);
                    assert(sv[k2] != sv[i as int]);
                }
                if sv.contains(x) && x != id@ {
                    let k = choose|k: int| 0 <= k < sv.len() && sv[k] == x;
                    assert(k != i);
                    let k2 = if k < i { k } else { k - 1 };
                    assert(nv[k2] == x);
                }
            }
            return;
        }
        i = i + 1;
    }
    assert forall|x: Seq<char>| #[trigger] sv.contains(x) implies x != id@ by {
        let k = choose|k: int| 0 <= k < sv.len() && sv[k] == x;
    }
}

/// Records `r` as the latest result of its mapping id.
#[verifier::loop_isolation(false)]
fn record_probe(v: &mut Vec<ProbeResult>, r: ProbeResult)
    requires
        distinct(probe_ids(old(v)@)),
    ensures
        distinct(probe_ids(final(v)@)),
        probe_map(final(v)@) == probe_map(old(v)@).insert(r.mapping_id@, r),
{
    let ghost ids = probe_ids(v@);
    let ghost old_v = v@;
    let ghost rv = r;
    let mut i: usize = 0;
    while i < v.len()
        invariant
            ids == probe_ids(v@),
            old_v == v@,
            i <= v.len(),
            forall|q: int| 0 <= q < i ==> (#[trigger] ids[q]) != r.mapping_id@,
        decreases v.len() - i,
    {
        if v[i].mapping_id == r.mapping_id {
            assert(ids[i as int] == rv.mapping_id@);
            v.set(i, r);
            let ghost nids = probe_ids(v@);
            assert(nids =~= ids);
            let ghost target = probe_map(old_v).insert(rv.mapping_id@, rv);
            assert forall|x: Seq<char>| #[trigger] probe_map(v@).dom().contains(x)
                == target.dom().contains(x) by {
                if x == rv.mapping_id@ {
                    assert(ids[i as int] == x);
                }
            }
            assert forall|x: Seq<char>| #[trigger] probe_map(v@).dom().contains(x) implies probe_map(
                v@,
            )[x] == target[x] by {
                assert(ids.contains(x));
                let k = ids.index_of(x);
                assert(0 <= k < ids.len() && ids[k] == x);
                if x == rv.mapping_id@ {
                    assert(ids[i as int] == x);
                    if k != i {
                        assert(ids[k] != ids[i as int]);
                    }
                    assert(k == i);
                } else {
                    assert(k != i);
                }
            }
            assert(probe_map(v@) =~= target);
            return;
        }
        i = i + 1;
    }
    assert forall|x: Seq<char>| #[trigger] ids.contains(x) implies x != rv.mapping_id@ by {
        let k = choose|k: int| 0 <= k < ids.len() && ids[k] == x;
    }
    proof {
        lemma_distinct_push(ids, rv.mapping_id@);
    }
    v.push(r);
    let ghost nids = probe_ids(v@);
    assert(nids =~= ids.push(rv.mapping_id@));
    let ghost target = probe_map(old_v).insert(rv.mapping_id@, rv);
    assert forall|x: Seq<char>| #[trigger] probe_map(v@).dom().contains(x) == target.dom().contains(x) by {
        if nids.contains(x) {
            let k = choose|k: int| 0 <= k < nids.len() && nids[k] == x;
            if k < ids.len() {
                assert(ids[k] == x);
            }
        }
        if ids.contains(x) {
            let k = choose|k: int| 0 <= k < ids.len() && ids[k] == x;
            assert(nids[k] == x);
        }
        if x == rv.mapping_id@ {
            assert(nids[ids.len() as int] == x);
        }
    }
    assert forall|x: Seq<char>| #[trigger] probe_map(v@).dom().contains(x) implies probe_map(v@)[x]
        == target[x] by {
        let k = nids.index_of(x);
        assert(0 <= k < nids.len() && nids[k] == x);
        if x == rv.mapping_id@ {
            if k < ids.len() {
                assert(ids[k] == x);
            }
            assert(k == ids.len());
        } else {
            assert(k < ids.len());
            assert(ids[k] == x);
            assert(ids.contains(x));
            let k0 = ids.index_of(x);
            assert(0 <= k0 < ids.len() && ids[k0] == x);
            if k0 != k {
                assert(ids[k0] != ids[k]);
            }
        }
    }
    assert(probe_map(v@) =~= target);
}

/// `b` is `a` with the form left open and the reason it was refused shown.
pub open spec fn form_refused(a: App, b: App, why: Seq<char>) -> bool {
    &&& b == App { status: b.status, ..a }
    &&& b.status@ == "invalid: "@ + why
}

/// `b` is `a` after committing the form: when its fields parse to a mapping
/// and the config with that mapping in place (or appended) is valid, the
/// config takes it, the new mapping is selected when it was added, the form
/// closes and the change is marked unsaved; otherwise the form stays open
/// and the first problem is shown.
pub open spec fn form_committed(a: App, b: App) -> bool {
    match a.form {
        None => b == a,
        Some(f) => {
            let v = string_views(f.values@);
            match spec_form_values(v) {
                Err(e) => form_refused(a, b, e),
                Ok(p) => exists|m: Mapping|
                    #![trigger mapping_of_form(m, v, p)]
                    mapping_of_form(m, v, p) && ({
                        let ms = committed(a.cfg.mappings@, f.edit_index, m);
                        match validate_fault(a.cfg.nftables, a.cfg.prometheus, ms) {
                            Some(fault) => form_refused(a, b, fault_text(fault)),
                            None => {
                                &&& b == App {
                                    cfg: b.cfg,
                                    selected: b.selected,
                                    dirty: true,
                                    form: None,
                                    status: b.status,
                                    ..a
                                }
                                &&& b.cfg == Config { mappings: b.cfg.mappings, ..a.cfg }
                                &&& b.cfg.mappings@ == ms
                                &&& b.selected == if f.edit_index is None {
                                    (ms.len() - 1) as usize
                                } else {
                                    a.selected
                                }
                                &&& b.status@ == "rule updated \u{2014} press w to save"@
                            },
                        }
                    }),
            }
        },
    }
}

/// `b` is `a` with the selected mapping's probe in flight and reported;
/// nothing happens with nothing selected.
pub open spec fn selected_probe_started(a: App, b: App) -> bool {
    match a.selected_mapping_spec() {
        Some(m) => {
            &&& b == App { probing: b.probing, status: b.status, ..a }
            &&& forall|x: Seq<char>|
                #[trigger] string_views(b.probing@).contains(x) <==> (string_views(
                    a.probing@,
                ).contains(x) || x == m.id@)
            &&& b.status@ == "probing "@ + m.id@ + " \u{2026}"@
        },
        None => b == a,
    }
}

/// `b` is `a` with every mapping's probe in flight and their number
/// reported.
pub open spec fn all_probes_started(a: App, b: App) -> bool {
    &&& b == App { probing: b.probing, status: b.status, ..a }
    &&& forall|x: Seq<char>|
        #[trigger] string_views(b.probing@).contains(x) <==> (string_views(a.probing@).contains(x)
            || exists|i: int|
            0 <= i < a.cfg.mappings@.len() && (#[trigger] a.cfg.mappings@[i]).id@ == x)
    &&& b.status@ == "probing "@ + dec_text(a.cfg.mappings@.len()) + " target(s) \u{2026}"@
}

impl App {
    /// Commits the open form: the mapping it describes replaces the edited one
    /// (or is appended), if the result is a valid config.
    pub fn commit_form(&mut self)
        requires
            old(self).wf(),
        ensures
            form_committed(*old(self), *final(self)),
            final(self).wf(),
    {
        let (edit_index, m) = match &self.form {
            None => {
                return;
            },
            Some(form) => {
                match mapping_from_values(&form.values) {
                    Ok(m) => (form.edit_index, m),
                    Err(e) => {
                        self.status = prefixed("invalid: ", e.as_str());
                        return;
                    },
                }
            },
        };
        let ghost mv = m;
        let mut next = self.cfg.duplicate();
        match edit_index {
            Some(i) => {
                next.mappings.set(i, m);
            },
            None => {
                next.mappings.push(m);
            },
        }
        assert(next.mappings@ == committed(self.cfg.mappings@, edit_index, mv));
        match validate(&next) {
            Err(e) => {
                let msg = e.message();
                self.status = prefixed("invalid: ", msg.as_str());
                return;
            },
            Ok(()) => {},
        }
        let adding = edit_index.is_none();
        self.cfg = next;
        if adding {
            self.selected = self.cfg.mappings.len() - 1;
        }
        self.dirty = true;
        self.form = None;
        self.status = owned("rule updated \u{2014} press w to save");
    }

    /// Starts probing the selected mapping: it is marked in flight and
    /// returned for the caller to probe.
    pub fn probe_selected(&mut self) -> (r: Option<Mapping>)
        requires
            old(self).wf(),
        ensures
            r == old(self).selected_mapping_spec(),
            selected_probe_started(*old(self), *final(self)),
            final(self).wf(),
    {
        if self.selected >= self.cfg.mappings.len() {
            return None;
        }
        let m = self.cfg.mappings[self.selected].duplicate();
        mark_probing(&mut self.probing, &m.id);
        let mut st = owned("probing ");
        append(&mut st, m.id.as_str());
        append(&mut st, " \u{2026}");
        self.status = st;
        Some(m)
    }

    /// Starts probing every mapping: all are marked in flight and returned
    /// for the caller to probe.
    #[verifier::loop_isolation(false)]
    pub fn probe_all(&mut self) -> (r: Vec<Mapping>)
        requires
            old(self).wf(),
        ensures
            r@ == old(self).cfg.mappings@,
            all_probes_started(*old(self), *final(self)),
            final(self).wf(),
    {
        let mappings = copy_mappings(&self.cfg.mappings);
        let mut probing: Vec<String> = Vec::new();
        std::mem::swap(&mut probing, &mut self.probing);
        let ghost start = string_views(probing@);
        let mut i: usize = 0;
        while i < mappings.len()
            invariant
                i <= mappings.len(),
                mappings@ == self.cfg.mappings@,
                distinct(string_views(probing@)),
                forall|x: Seq<char>|
                    #[trigger] string_views(probing@).contains(x) <==> (start.contains(x)
                        || exists|j: int| 0 <= j < i && (#[trigger] mappings@[j]).id@ == x),
            decreases mappings.len() - i,
        {
            let ghost before = string_views(probing@);
            mark_probing(&mut probing, &mappings[i].id);
            assert forall|x: Seq<char>|
                #[trigger] string_views(probing@).contains(x) <==> (start.contains(x)
                    || exists|j: int| 0 <= j < i + 1 && (#[trigger] mappings@[j]).id@ == x) by {
                if x == mappings@[i as int].id@ {
                    assert(0 <= i < i + 1 && mappings@[i as int].id@ == x);
                }
                if exists|j: int| 0 <= j < i + 1 && (#[trigger] mappings@[j]).id@ == x {
                    let j = choose|j: int| 0 <= j < i + 1 && (#[trigger] mappings@[j]).id@ == x;
                    if j < i {
                        assert(before.contains(x));
                    }
                }
            }
            i = i + 1;
        }
        self.probing = probing;
        let mut st = owned("probing ");
        append(&mut st, u64_text(mappings.len() as u64).as_str());
        append(&mut st, " target(s) \u{2026}");
        self.status = st;
        mappings
    }

    /// Takes in finished probes: each one's id is no longer in flight, and
    /// it becomes the latest result for that id.
    #[verifier::loop_isolation(false)]
    pub fn poll_probes(&mut self, results: Vec<ProbeResult>)
        requires
            old(self).wf(),
        ensures
            same_chrome(*old(self), *final(self)),
            final(self).wf(),
            final(self).cfg == old(self).cfg,
            final(self).selected == old(self).selected,
            final(self).form == old(self).form,
            final(self).confirm == old(self).confirm,
            final(self).status == old(self).status,
            final(self).dirty == old(self).dirty,
            probe_map(final(self).probes@) == poll_map(probe_map(old(self).probes@), results@),
            forall|x: Seq<char>|
                #[trigger] string_views(final(self).probing@).contains(x) <==> (string_views(
                    old(self).probing@,
                ).contains(x) && !probe_ids(results@).contains(x)),
    {
        let mut probing: Vec<String> = Vec::new();
        std::mem::swap(&mut probing, &mut self.probing);
        let mut probes: Vec<ProbeResult> = Vec::new();
        std::mem::swap(&mut probes, &mut self.probes);
        let ghost start_probing = string_views(probing@);
        let ghost start_map = probe_map(probes@);
        let mut i: usize = 0;
        assert(results@.take(0) =~= Seq::<ProbeResult>::empty());
        while i < results.len()
            invariant
                i <= results.len(),
                distinct(string_views(probing@)),
                distinct(probe_ids(probes@)),
                probe_map(probes@) == poll_map(start_map, results@.take(i as int)),
                forall|x: Seq<char>|
                    #[trigger] string_views(probing@).contains(x) <==> (start_probing.contains(x)
                        && !probe_ids(results@.take(i as int)).contains(x)),
            decreases results.len() - i,
        {
            let r = results[i].clone_result();
            unmark_probing(&mut probing, &r.mapping_id);
            record_probe(&mut probes, r);
            assert(results@.take(i as int + 1).drop_last() == results@.take(i as int));
            let ghost ids0 = probe_ids(results@.take(i as int));
            let ghost ids1 = probe_ids(results@.take(i as int + 1));
            assert(ids1 =~= ids0.push(results@[i as int].mapping_id@));
            assert forall|x: Seq<char>| #[trigger] ids1.contains(x) <==> (ids0.contains(x) || x
                == results@[i as int].mapping_id@) by {
                if ids0.contains(x) {
                    let k = choose|k: int| 0 <= k < ids0.len() && ids0[k] == x;
                    assert(ids1[k] == x);
                }
                if x == results@[i as int].mapping_id@ {
                    assert(ids1[i as int] == x);
                }
                if ids1.contains(x) && x != results@[i as int].mapping_id@ {
                    let k = choose|k: int| 0 <= k < ids1.len() && ids1[k] == x;
                    assert(k < i);
                    assert(ids0[k] == x);
                }
            }
            i = i + 1;
        }
        assert(probe_ids(results@.take(results.len() as int)) == probe_ids(results@)) by {
            assert(results@.take(results.len() as int) == results@);
        }
        self.probing = probing;
        self.probes = probes;
        assert(results@.take(results.len() as int) == results@);
    }
}

} // verus!
