//! What the rule manager's screen shows: the texts of its cells, lines and
//! popups, and where a popup goes. Drawing them is left to the terminal
//! front end.

use vstd::prelude::*;

use crate::model::{Mapping, Protocol};
use crate::probe::ProbeResult;
use crate::text::{append, bool_string, bool_text, chars_of, dec_text, owned, push_char, u64_text};
use crate::tui::app::{
    distinct, probe_ids, probe_map, spec_field_kind, string_views, App, Confirm, FieldKind,
};

verus! {

/// The first `n` characters of `s`, or, when `s` is longer than `n`, its
/// first `n - 1` characters and an ellipsis.
pub open spec fn truncated(s: Seq<char>, n: nat) -> Seq<char> {
    if s.len() <= n {
        s
    } else {
        s.take(if n > 0 {
            n - 1
        } else {
            0
        }) + seq!['\u{2026}']
    }
}

/// Shortens `s` to at most `n` characters, marking a cut with an ellipsis.
pub fn truncate(s: &str, n: usize) -> (r: String)
    ensures
        r@ == truncated(s@, n as nat),
{
    let cs = chars_of(s);
    if cs.len() <= n {
        return owned(s);
    }
    let keep = if n > 0 {
        n - 1
    } else {
        0
    };
    let mut out = String::new();
    let mut i: usize = 0;
    while i < keep
        invariant
            keep < cs.len(),
            i <= keep,
            out@ == cs@.take(i as int),
        decreases keep - i,
    {
        push_char(&mut out, cs[i]);
        assert(cs@.take(i as int + 1) == cs@.take(i as int).push(cs@[i as int]));
        i = i + 1;
    }
    push_char(&mut out, '\u{2026}');
    out
}

/// `s`, or `fallback` when `s` is empty.
pub fn value_or(s: &str, fallback: &str) -> (r: String)
    ensures
        r@ == if s@.len() == 0 {
            fallback@
        } else {
            s@
        },
{
    if s.is_empty() {
        owned(fallback)
    } else {
        owned(s)
    }
}

/// A rectangle of the screen, in cells.
#[derive(Debug, Clone, Copy, PartialEq, Eq, Structural)]
pub struct Area {
    pub x: u16,
    pub y: u16,
    pub width: u16,
    pub height: u16,
}

/// The rectangle of width `w` and height `h` (each cut to the area's)
/// centred in `area`.
pub fn centered(area: Area, w: u16, h: u16) -> (r: Area)
    requires
        area.x + area.width <= u16::MAX,
        area.y + area.height <= u16::MAX,
    ensures
        r.width == if w < area.width {
            w
        } else {
            area.width
        },
        r.height == if h < area.height {
            h
        } else {
            area.height
        },
        r.x == area.x + (area.width - r.width) / 2,
        r.y == area.y + (area.height - r.height) / 2,
{
    let w = if w < area.width {
        w
    } else {
        area.width
    };
    let h = if h < area.height {
        h
    } else {
        area.height
    };
    Area { x: area.x + (area.width - w) / 2, y: area.y + (area.height - h) / 2, width: w, height: h }
}

/// What the latency cell of a mapping shows.
#[derive(Debug)]
pub enum LatencyCell {
    /// A probe is in flight.
    InFlight,
    /// The last probe reached the target in this time.
    Reached(std::time::Duration),
    /// The last probe did not reach the target.
    Unreachable,
    /// The target was never probed.
    Unprobed,
}

/// The latency cell of mapping `id`: in flight first, else the latest
/// result, else never probed.
pub open spec fn spec_latency_cell(a: App, id: Seq<char>) -> LatencyCell {
    if string_views(a.probing@).contains(id) {
        LatencyCell::InFlight
    } else if probe_map(a.probes@).dom().contains(id) {
        match probe_map(a.probes@)[id].latency {
            Some(d) => LatencyCell::Reached(d),
            None => LatencyCell::Unreachable,
        }
    } else {
        LatencyCell::Unprobed
    }
}

/// The latest probe result of mapping `id`, if any.
fn find_probe<'a>(app: &'a App, id: &str) -> (r: Option<&'a ProbeResult>)
    requires
        app.wf(),
    ensures
        match r {
            Some(p) => probe_map(app.probes@).dom().contains(id@) && *p == probe_map(
                app.probes@,
            )[id@],
            None => !probe_map(app.probes@).dom().contains(id@),
        },
{
    let ghost ids = probe_ids(app.probes@);
    let mut i: usize = 0;
    while i < app.probes.len()
        invariant
            ids == probe_ids(app.probes@),
            distinct(ids),
            i <= app.probes.len(),
            forall|q: int| 0 <= q < i ==> (#[trigger] ids[q]) != id@,
        decreases app.probes.len() - i,
    {
        if crate::text::str_eq(app.probes[i].mapping_id.as_str(), id) {
            proof {
                assert(ids[i as int] == id@);
                assert(ids.contains(id@));
                let k = ids.index_of(id@);
                assert(ids[k] == id@);
                if k != i as int {
                    assert(ids[k] != ids[i as int]);
                }
            }
            return Some(&app.probes[i]);
        }
        i = i + 1;
    }
    assert(!ids.contains(id@)) by {
        if ids.contains(id@) {
            let k = choose|k: int| 0 <= k < ids.len() && ids[k] == id@;
            assert(ids[k] != id@);
        }
    }
    None
}

/// Whether mapping `id` has a probe in flight.
fn in_flight(app: &App, id: &str) -> (b: bool)
    ensures
        b == string_views(app.probing@).contains(id@),
{
    let ghost sv = string_views(app.probing@);
    let mut i: usize = 0;
    while i < app.probing.len()
        invariant
            sv == string_views(app.probing@),
            i <= app.probing.len(),
            forall|q: int| 0 <= q < i ==> (#[trigger] sv[q]) != id@,
        decreases app.probing.len() - i,
    {
        if crate::text::str_eq(app.probing[i].as_str(), id) {
            assert(sv[i as int] == id@);
            return true;
        }
        i = i + 1;
    }
    assert(!sv.contains(id@)) by {
        if sv.contains(id@) {
            let k = choose|k: int| 0 <= k < sv.len() && sv[k] == id@;
            assert(sv[k] != id@);
        }
    }
    false
}

/// What the latency cell of mapping `id` shows.
pub fn latency_cell(app: &App, id: &str) -> (r: LatencyCell)
    requires
        app.wf(),
    ensures
        r == spec_latency_cell(*app, id@),
{
    if in_flight(app, id) {
        return LatencyCell::InFlight;
    }
    match find_probe(app, id) {
        Some(p) => match p.latency {
            Some(d) => LatencyCell::Reached(d),
            None => LatencyCell::Unreachable,
        },
        None => LatencyCell::Unprobed,
    }
}

/// How the latest probe of mapping `id` measured (`tcp` or `icmp`), or the
/// empty text when there is none.
pub fn probe_method(app: &App, id: &str) -> (r: &'static str)
    requires
        app.wf(),
    ensures
        r@ == if probe_map(app.probes@).dom().contains(id@) {
            probe_map(app.probes@)[id@].method@
        } else {
            ""@
        },
{
    match find_probe(app, id) {
        Some(p) => p.method,
        None => "",
    }
}

/// The title of the mapping list.
pub open spec fn list_title_text(n: nat, dirty: bool) -> Seq<char> {
    " Mappings ("@ + dec_text(n) + ")"@ + if dirty {
        "  *modified"@
    } else {
        ""@
    } + " "@
}

/// The title of the mapping list: how many there are, and whether there
/// are unsaved changes.
pub fn list_title(app: &App) -> (r: String)
    ensures
        r@ == list_title_text(app.cfg.mappings@.len(), app.dirty),
{
    let mut s = owned(" Mappings (");
    append(&mut s, u64_text(app.cfg.mappings.len() as u64).as_str());
    append(&mut s, ")");
    append(&mut s, if app.dirty { "  *modified" } else { "" });
    append(&mut s, " ");
    s
}

/// The protocol in capitals.
pub open spec fn protocol_caps(p: Protocol) -> Seq<char> {
    match p {
        Protocol::Tcp => "TCP"@,
        Protocol::Udp => "UDP"@,
    }
}

/// `yes` or `no`.
pub open spec fn yes_no(b: bool) -> Seq<char> {
    if b {
        "yes"@
    } else {
        "no"@
    }
}

/// An address and a port, `ip:port`.
pub open spec fn endpoint_text(ip: Seq<char>, port: u16) -> Seq<char> {
    ip + ":"@ + dec_text(port as nat)
}

fn endpoint(ip: &str, port: u16) -> (r: String)
    ensures
        r@ == endpoint_text(ip@, port),
{
    let mut s = owned(ip);
    append(&mut s, ":");
    append(&mut s, u64_text(port as u64).as_str());
    s
}

/// The cells of a mapping's row before its latency: the selection marker,
/// the id (cut to 18 characters), the protocol, the listen and target
/// endpoints, and whether it is enabled and masqueraded.
pub open spec fn row_cells(m: Mapping, selected: bool) -> Seq<Seq<char>> {
    seq![
        if selected {
            ">"@
        } else {
            " "@
        },
        truncated(m.id@, 18),
        protocol_caps(m.protocol),
        endpoint_text(m.listen_ip@, m.listen_port),
        endpoint_text(m.target_ip@, m.target_port),
        yes_no(m.enabled),
        yes_no(m.masquerade),
    ]
}

/// The cells of a mapping's row before its latency.
pub fn mapping_cells(m: &Mapping, selected: bool) -> (r: Vec<String>)
    ensures
        string_views(r@) == row_cells(*m, selected),
{
    let mut r: Vec<String> = Vec::new();
    r.push(owned(if selected { ">" } else { " " }));
    r.push(truncate(m.id.as_str(), 18));
    r.push(
        owned(
            match m.protocol {
                Protocol::Tcp => "TCP",
                Protocol::Udp => "UDP",
            },
        ),
    );
    r.push(endpoint(m.listen_ip.as_str(), m.listen_port));
    r.push(endpoint(m.target_ip.as_str(), m.target_port));
    r.push(owned(if m.enabled { "yes" } else { "no" }));
    r.push(owned(if m.masquerade { "yes" } else { "no" }));
    assert(string_views(r@) =~= row_cells(*m, selected));
    r
}

/// The route line of the selected mapping's details.
pub open spec fn route_text(m: Mapping) -> Seq<char> {
    endpoint_text(m.listen_ip@, m.listen_port) + "/"@ + crate::model::protocol_text(m.protocol)
        + "  \u{2192}  "@ + endpoint_text(m.target_ip@, m.target_port)
}

/// `listen:port/proto  →  target:port`.
pub fn route_line(m: &Mapping) -> (r: String)
    ensures
        r@ == route_text(*m),
{
    let mut s = endpoint(m.listen_ip.as_str(), m.listen_port);
    append(&mut s, "/");
    append(&mut s, m.protocol.as_str());
    append(&mut s, "  \u{2192}  ");
    append(&mut s, endpoint(m.target_ip.as_str(), m.target_port).as_str());
    s
}

/// `enabled=…  masquerade=…`.
pub fn flags_line(m: &Mapping) -> (r: String)
    ensures
        r@ == "enabled="@ + bool_text(m.enabled) + "  masquerade="@ + bool_text(m.masquerade),
{
    let mut s = owned("enabled=");
    append(&mut s, bool_string(m.enabled).as_str());
    append(&mut s, "  masquerade=");
    append(&mut s, bool_string(m.masquerade).as_str());
    s
}

/// The note after the latency in the details: the probe's method in
/// brackets, or nothing.
pub fn method_suffix(method: &str) -> (r: String)
    ensures
        r@ == if method@.len() == 0 {
            ""@
        } else {
            "  ("@ + method@ + ")"@
        },
{
    if method.is_empty() {
        return owned("");
    }
    let mut s = owned("  (");
    append(&mut s, method);
    append(&mut s, ")");
    s
}

/// The status line: the open question, or the last status message.
pub open spec fn status_message_text(a: App) -> Seq<char> {
    match a.confirm {
        Some(Confirm::Delete(_)) => "Delete selected rule? y confirms, any other key cancels"@,
        Some(Confirm::Apply) => "Save and apply rules? y confirms, any other key cancels"@,
        None => a.status@,
    }
}

pub fn status_message(app: &App) -> (r: String)
    ensures
        r@ == status_message_text(*app),
{
    match &app.confirm {
        Some(Confirm::Delete(_)) => owned("Delete selected rule? y confirms, any other key cancels"),
        Some(Confirm::Apply) => owned("Save and apply rules? y confirms, any other key cancels"),
        None => app.status.clone(),
    }
}

/// The value a form field shows: `<empty>` for an empty one, and a cursor
/// after the text of the active text field.
pub open spec fn form_value_text(v: Seq<char>, active: bool, kind: FieldKind) -> Seq<char> {
    let shown = if v.len() == 0 {
        "<empty>"@
    } else {
        v
    };
    if active && kind == FieldKind::Text {
        shown.push('\u{2588}')
    } else {
        shown
    }
}

pub fn form_value(v: &str, active: bool, kind: FieldKind) -> (r: String)
    ensures
        r@ == form_value_text(v@, active, kind),
{
    let mut s = if v.is_empty() {
        owned("<empty>")
    } else {
        owned(v)
    };
    if active && kind == FieldKind::Text {
        push_char(&mut s, '\u{2588}');
    }
    s
}

/// The hint after a form field: how the active field is edited.
pub open spec fn form_hint_text(kind: FieldKind, active: bool) -> Seq<char> {
    if !active {
        ""@
    } else if kind == FieldKind::Text {
        "  type/backspace"@
    } else {
        "  \u{2190}/\u{2192}/space toggles"@
    }
}

pub fn form_hint(kind: FieldKind, active: bool) -> (r: &'static str)
    ensures
        r@ == form_hint_text(kind, active),
{
    if !active {
        ""
    } else if kind == FieldKind::Text {
        "  type/backspace"
    } else {
        "  \u{2190}/\u{2192}/space toggles"
    }
}

/// `s` padded with spaces on the right to `n` characters (`{:<n}`).
pub open spec fn padded(s: Seq<char>, n: nat) -> Seq<char> {
    if s.len() >= n {
        s
    } else {
        s + Seq::new((n - s.len()) as nat, |i: int| ' ')
    }
}

pub fn pad_right(s: &str, n: usize) -> (r: String)
    ensures
        r@ == padded(s@, n as nat),
{
    let cs = chars_of(s);
    let mut r = owned(s);
    let mut k: usize = cs.len();
    while k < n
        invariant
            cs@ == s@,
            cs.len() <= k <= n || (k == cs.len() && k >= n),
            r@ == s@ + Seq::new((k - cs.len()) as nat, |i: int| ' '),
        decreases n - k,
    {
        push_char(&mut r, ' ');
        assert(s@ + Seq::new((k + 1 - cs.len()) as nat, |i: int| ' ') =~= (s@ + Seq::new(
            (k - cs.len()) as nat,
            |i: int| ' ',
        )).push(' '));
        k = k + 1;
    }
    if cs.len() >= n {
        assert(r@ =~= s@);
    }
    r
}

/// The title of the form popup.
pub fn form_title(editing: bool) -> (r: &'static str)
    ensures
        r@ == if editing {
            " Edit Rule "@
        } else {
            " Add Rule "@
        },
{
    if editing {
        " Edit Rule "
    } else {
        " Add Rule "
    }
}

} // verus!
