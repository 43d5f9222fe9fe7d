use nporter::model::{Config, Mapping, Protocol};
use nporter::probe::ProbeResult;
use nporter::tui::app::{App, Confirm, FieldKind};
use nporter::tui::view::{
    centered, flags_line, form_hint, form_title, form_value, latency_cell, list_title,
    mapping_cells, method_suffix, pad_right, probe_method, route_line, status_message, truncate,
    value_or, Area, LatencyCell,
};

fn mapping(id: &str) -> Mapping {
    Mapping {
        id: id.into(),
        name: String::new(),
        protocol: Protocol::Udp,
        listen_ip: "0.0.0.0".into(),
        listen_port: 5353,
        target_ip: "fd00::1".into(),
        target_port: 53,
        enabled: true,
        masquerade: false,
        description: String::new(),
    }
}

fn app() -> App {
    let mut cfg = Config::default();
    cfg.mappings.push(mapping("dns"));
    cfg.mappings.push(mapping("web"));
    App::load("c.toml".into(), Ok(cfg))
}

#[test]
fn truncation() {
    assert_eq!(truncate("short", 18), "short");
    assert_eq!(truncate("abcdef", 4), "abc\u{2026}");
    assert_eq!(truncate("abcd", 4), "abcd");
    assert_eq!(truncate("ab", 0), "\u{2026}");
    assert_eq!(truncate("", 0), "");
    assert_eq!(truncate("\u{e9}\u{e9}\u{e9}", 2), "\u{e9}\u{2026}");
}

#[test]
fn fallbacks_and_padding() {
    assert_eq!(value_or("", "-"), "-");
    assert_eq!(value_or("x", "-"), "x");
    assert_eq!(pad_right("id", 5), "id   ");
    assert_eq!(pad_right("listen_port", 4), "listen_port");
    assert_eq!(pad_right("abc", 3), "abc");
}

#[test]
fn centred_popup() {
    let area = Area { x: 0, y: 0, width: 100, height: 30 };
    assert_eq!(centered(area, 64, 14), Area { x: 18, y: 8, width: 64, height: 14 });
    let small = Area { x: 2, y: 1, width: 40, height: 10 };
    assert_eq!(centered(small, 64, 20), Area { x: 2, y: 1, width: 40, height: 10 });
    assert_eq!(centered(small, 31, 3), Area { x: 6, y: 4, width: 31, height: 3 });
}

#[test]
fn latency_cells() {
    let mut a = app();
    assert!(matches!(latency_cell(&a, "dns"), LatencyCell::Unprobed));
    assert_eq!(probe_method(&a, "dns"), "");
    a.probe_selected();
    assert!(matches!(latency_cell(&a, "dns"), LatencyCell::InFlight));
    a.poll_probes(vec![ProbeResult {
        mapping_id: "dns".into(),
        latency: Some(std::time::Duration::from_micros(400)),
        method: "icmp",
        error: None,
    }]);
    assert!(matches!(latency_cell(&a, "dns"), LatencyCell::Reached(d) if d.as_micros() == 400));
    assert_eq!(probe_method(&a, "dns"), "icmp");
    a.poll_probes(vec![ProbeResult {
        mapping_id: "web".into(),
        latency: None,
        method: "icmp",
        error: Some("no reply".into()),
    }]);
    assert!(matches!(latency_cell(&a, "web"), LatencyCell::Unreachable));
}

#[test]
fn list_texts() {
    let mut a = app();
    assert_eq!(list_title(&a), " Mappings (2) ");
    a.dirty = true;
    assert_eq!(list_title(&a), " Mappings (2)  *modified ");
    let mut m = mapping("a-very-long-mapping-identifier");
    m.enabled = false;
    assert_eq!(
        mapping_cells(&m, true),
        vec![">", "a-very-long-mappi\u{2026}", "UDP", "0.0.0.0:5353", "fd00::1:53", "no", "no"]
    );
    assert_eq!(mapping_cells(&mapping("x"), false)[0], " ");
}

#[test]
fn detail_texts() {
    let m = mapping("dns");
    assert_eq!(route_line(&m), "0.0.0.0:5353/udp  \u{2192}  fd00::1:53");
    assert_eq!(flags_line(&m), "enabled=true  masquerade=false");
    assert_eq!(method_suffix(""), "");
    assert_eq!(method_suffix("tcp"), "  (tcp)");
}

#[test]
fn status_and_form_texts() {
    let mut a = app();
    assert_eq!(status_message(&a), "loaded");
    a.confirm = Some(Confirm::Delete(0));
    assert_eq!(status_message(&a), "Delete selected rule? y confirms, any other key cancels");
    a.confirm = Some(Confirm::Apply);
    assert_eq!(status_message(&a), "Save and apply rules? y confirms, any other key cancels");
    assert_eq!(form_value("", false, FieldKind::Text), "<empty>");
    assert_eq!(form_value("", true, FieldKind::Text), "<empty>\u{2588}");
    assert_eq!(form_value("tcp", true, FieldKind::Proto), "tcp");
    assert_eq!(form_hint(FieldKind::Text, true), "  type/backspace");
    assert_eq!(form_hint(FieldKind::Bool, true), "  \u{2190}/\u{2192}/space toggles");
    assert_eq!(form_hint(FieldKind::Bool, false), "");
    assert_eq!(form_title(true), " Edit Rule ");
    assert_eq!(form_title(false), " Add Rule ");
}
