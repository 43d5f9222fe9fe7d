use nporter::config::validate;
use nporter::model::{Config, Mapping, Protocol};
use nporter::nft::ApplyReport;
use nporter::probe::ProbeResult;
use nporter::tui::app::{App, Confirm};
use nporter::tui::keys::{handle_key, Effect, KeyCode, KeyPress};
use nporter::ufw;

fn mapping(id: &str, port: u16) -> Mapping {
    Mapping {
        id: id.into(),
        name: format!("Rule {id}"),
        protocol: Protocol::Tcp,
        listen_ip: "0.0.0.0".into(),
        listen_port: port,
        target_ip: "192.0.2.10".into(),
        target_port: 80,
        enabled: true,
        masquerade: true,
        description: String::new(),
    }
}

fn app_with(ids: &[&str]) -> App {
    let mut cfg = Config::default();
    for (i, id) in ids.iter().enumerate() {
        cfg.mappings.push(mapping(id, 8000 + i as u16));
    }
    App::load("nporter.toml".into(), Ok(cfg))
}

fn key(c: char) -> KeyPress {
    KeyPress { code: KeyCode::Char(c), ctrl: false }
}

fn code(k: KeyCode) -> KeyPress {
    KeyPress { code: k, ctrl: false }
}

fn ids(app: &App) -> Vec<String> {
    app.cfg.mappings.iter().map(|m| m.id.clone()).collect()
}

#[test]
fn load_reports_outcome() {
    let app = app_with(&["a"]);
    assert_eq!(app.status, "loaded");
    assert_eq!(app.selected, 0);
    assert!(!app.dirty);
    let failed = App::load("x.toml".into(), Err("bad toml".into()));
    assert_eq!(failed.status, "load failed: bad toml");
    assert!(failed.cfg.mappings.is_empty());
    assert_eq!(failed.cfg.nftables.family, "inet");
}

#[test]
fn reload_keeps_selection_in_range() {
    let mut app = app_with(&["a", "b", "c"]);
    app.selected = 2;
    let mut cfg = Config::default();
    cfg.mappings.push(mapping("only", 1));
    app.dirty = true;
    app.reload(Ok(cfg));
    assert_eq!(app.selected, 0);
    assert!(!app.dirty);
    app.reload(Err("gone".into()));
    assert_eq!(app.status, "load failed: gone");
    assert_eq!(ids(&app), vec!["only"]);
}

#[test]
fn save_and_apply_status() {
    let mut app = app_with(&["a"]);
    app.dirty = true;
    app.save(Err("disk full".into()));
    assert!(app.dirty);
    assert_eq!(app.status, "save failed: disk full");
    app.save(Ok(()));
    assert!(!app.dirty);
    assert_eq!(app.status, "saved");
    let r = ApplyReport { added: 2, deleted: 1, kept: 3 };
    let u = ufw::ApplyReport { added: 1, deleted: 0, kept: 4 };
    app.apply(Ok(r), Ok(u));
    assert_eq!(app.status, "applied nft (added=2, deleted=1, kept=3)");
    app.cfg.ufw.manage = true;
    let r = ApplyReport { added: 2, deleted: 1, kept: 3 };
    let u = ufw::ApplyReport { added: 1, deleted: 0, kept: 4 };
    app.apply(Ok(r), Ok(u));
    assert_eq!(
        app.status,
        "applied nft (added=2, deleted=1, kept=3); ufw (added=1, deleted=0, kept=4)"
    );
    let u = ufw::ApplyReport { added: 0, deleted: 0, kept: 0 };
    app.apply(Err("netlink".into()), Ok(u));
    assert_eq!(app.status, "apply failed: netlink");
    let r = ApplyReport { added: 0, deleted: 0, kept: 0 };
    app.apply(Ok(r), Err("no ufw".into()));
    assert_eq!(app.status, "ufw apply failed: no ufw");
}

#[test]
fn moving_the_selection() {
    let mut app = app_with(&["a", "b"]);
    app.move_up();
    assert_eq!(app.selected, 0);
    app.move_down();
    assert_eq!(app.selected, 1);
    app.move_down();
    assert_eq!(app.selected, 1);
    app.move_up();
    assert_eq!(app.selected, 0);
}

#[test]
fn toggles_mark_dirty() {
    let mut app = app_with(&["a"]);
    app.toggle_enabled();
    assert!(!app.cfg.mappings[0].enabled);
    assert!(app.dirty);
    assert_eq!(app.status, "enabled toggled \u{2014} press w to save");
    app.toggle_masquerade();
    assert!(!app.cfg.mappings[0].masquerade);
    assert_eq!(app.status, "masquerade toggled \u{2014} press w to save");
    let mut empty = app_with(&[]);
    empty.toggle_enabled();
    assert!(!empty.dirty);
    assert_eq!(empty.status, "loaded");
}

#[test]
fn delete_selected_clamps_selection() {
    let mut app = app_with(&["a", "b"]);
    app.selected = 1;
    app.delete_selected();
    assert_eq!(ids(&app), vec!["a"]);
    assert_eq!(app.selected, 0);
    assert_eq!(app.status, "deleted b \u{2014} press w to save");
    app.delete_selected();
    assert!(app.cfg.mappings.is_empty());
    assert_eq!(app.selected, 0);
    app.status = "x".into();
    app.delete_selected();
    assert_eq!(app.status, "x");
}

#[test]
fn add_form_defaults() {
    let mut app = app_with(&["a"]);
    app.cfg.nftables.default_masquerade = false;
    app.open_add_form();
    let f = app.form.as_ref().unwrap();
    assert_eq!(f.edit_index, None);
    assert_eq!(f.field, 0);
    assert_eq!(
        f.values,
        vec!["rule-2", "Rule 2", "tcp", "0.0.0.0", "", "", "", "true", "false", ""]
    );
    assert_eq!(app.status, "add rule");
}

#[test]
fn edit_form_shows_mapping() {
    let mut app = app_with(&["a"]);
    app.open_edit_form();
    let f = app.form.as_ref().unwrap();
    assert_eq!(f.edit_index, Some(0));
    assert_eq!(
        f.values,
        vec!["a", "Rule a", "tcp", "0.0.0.0", "8000", "192.0.2.10", "80", "true", "true", ""]
    );
    assert_eq!(app.status, "edit rule");
    let mut empty = app_with(&[]);
    empty.open_edit_form();
    assert!(empty.form.is_none());
}

#[test]
fn commit_form_adds_and_selects() {
    let mut app = app_with(&["a"]);
    app.open_add_form();
    {
        let f = app.form.as_mut().unwrap();
        f.values[4] = " 9000 ".into();
        f.values[5] = "192.0.2.20".into();
        f.values[6] = "22".into();
        f.values[2] = "UDP".into();
    }
    app.commit_form();
    assert!(app.form.is_none());
    assert_eq!(ids(&app), vec!["a", "rule-2"]);
    assert_eq!(app.selected, 1);
    assert!(app.dirty);
    assert_eq!(app.status, "rule updated \u{2014} press w to save");
    let m = &app.cfg.mappings[1];
    assert_eq!(m.listen_port, 9000);
    assert_eq!(m.protocol, Protocol::Udp);
    validate(&app.cfg).unwrap();
}

#[test]
fn commit_form_reports_problems() {
    let mut app = app_with(&["a"]);
    app.open_add_form();
    app.commit_form();
    assert_eq!(app.status, "invalid: listen_port must be 1-65535");
    assert!(app.form.is_some());
    {
        let f = app.form.as_mut().unwrap();
        f.values[4] = "8000".into();
        f.values[6] = "80".into();
        f.values[5] = "192.0.2.30".into();
    }
    app.commit_form();
    assert_eq!(
        app.status,
        "invalid: listen endpoint conflict: rule-2 conflicts with mapping a"
    );
    {
        let f = app.form.as_mut().unwrap();
        f.values[4] = "8001".into();
        f.values[7] = "yes".into();
    }
    app.commit_form();
    assert_eq!(app.status, "invalid: enabled must be true/false");
    {
        let f = app.form.as_mut().unwrap();
        f.values[7] = "true".into();
        f.values[2] = "sctp".into();
    }
    app.commit_form();
    assert_eq!(
        app.status,
        "invalid: unsupported protocol \"sctp\" (want tcp or udp)"
    );
    assert_eq!(ids(&app), vec!["a"]);
}

#[test]
fn probes_mark_and_record() {
    let mut app = app_with(&["a", "b"]);
    let m = app.probe_selected().unwrap();
    assert_eq!(m.id, "a");
    assert_eq!(app.probing, vec!["a"]);
    assert_eq!(app.status, "probing a \u{2026}");
    let all = app.probe_all();
    assert_eq!(all.len(), 2);
    assert_eq!(app.probing, vec!["a", "b"]);
    assert_eq!(app.status, "probing 2 target(s) \u{2026}");
    let first = ProbeResult {
        mapping_id: "a".into(),
        latency: None,
        method: "tcp",
        error: Some("refused".into()),
    };
    let second = ProbeResult {
        mapping_id: "a".into(),
        latency: Some(std::time::Duration::from_millis(5)),
        method: "tcp",
        error: None,
    };
    app.poll_probes(vec![first, second]);
    assert_eq!(app.probing, vec!["b"]);
    assert_eq!(app.probes.len(), 1);
    assert_eq!(app.probes[0].latency, Some(std::time::Duration::from_millis(5)));
}

#[test]
fn list_keys() {
    let mut app = app_with(&["a", "b"]);
    assert!(matches!(handle_key(&mut app, key('j')), Effect::Nothing));
    assert_eq!(app.selected, 1);
    assert!(matches!(handle_key(&mut app, code(KeyCode::Up)), Effect::Nothing));
    assert_eq!(app.selected, 0);
    assert!(matches!(handle_key(&mut app, key('w')), Effect::Save));
    assert!(matches!(handle_key(&mut app, key('r')), Effect::Reload));
    handle_key(&mut app, key(' '));
    assert!(!app.cfg.mappings[0].enabled);
    handle_key(&mut app, key('m'));
    assert!(!app.cfg.mappings[0].masquerade);
    match handle_key(&mut app, key('p')) {
        Effect::Probe(v) => assert_eq!(v.len(), 1),
        other => panic!("unexpected {other:?}"),
    }
    match handle_key(&mut app, key('P')) {
        Effect::Probe(v) => assert_eq!(v.len(), 2),
        other => panic!("unexpected {other:?}"),
    }
    assert!(matches!(handle_key(&mut app, key('x')), Effect::Nothing));
    handle_key(&mut app, KeyPress { code: KeyCode::Char('c'), ctrl: true });
    assert!(app.should_quit);
}

#[test]
fn quit_key() {
    let mut app = app_with(&[]);
    handle_key(&mut app, key('q'));
    assert!(app.should_quit);
}

#[test]
fn delete_needs_confirmation() {
    let mut app = app_with(&["a", "b"]);
    handle_key(&mut app, key('d'));
    assert!(matches!(app.confirm, Some(Confirm::Delete(0))));
    assert_eq!(app.status, "delete selected rule? y to confirm");
    handle_key(&mut app, key('n'));
    assert!(app.confirm.is_none());
    assert_eq!(app.status, "cancelled");
    assert_eq!(ids(&app), vec!["a", "b"]);
    handle_key(&mut app, key('j'));
    handle_key(&mut app, key('d'));
    handle_key(&mut app, key('Y'));
    assert!(app.confirm.is_none());
    assert_eq!(ids(&app), vec!["a"]);
    assert_eq!(app.selected, 0);
    let mut empty = app_with(&[]);
    handle_key(&mut empty, key('d'));
    assert!(empty.confirm.is_none());
}

#[test]
fn apply_needs_confirmation() {
    let mut app = app_with(&["a"]);
    handle_key(&mut app, key(' '));
    handle_key(&mut app, key('A'));
    assert!(matches!(app.confirm, Some(Confirm::Apply)));
    assert_eq!(app.status, "save and apply rules? y to confirm");
    match handle_key(&mut app, key('y')) {
        Effect::Apply { save_first } => assert!(save_first),
        other => panic!("unexpected {other:?}"),
    }
    assert!(app.confirm.is_none());
}

#[test]
fn help_overlay_scrolls_and_closes() {
    let mut app = app_with(&["a"]);
    handle_key(&mut app, key('?'));
    assert!(app.show_help);
    assert_eq!(app.help_scroll, 0);
    handle_key(&mut app, key('k'));
    assert_eq!(app.help_scroll, 0);
    handle_key(&mut app, code(KeyCode::Down));
    handle_key(&mut app, key('j'));
    assert_eq!(app.help_scroll, 2);
    app.help_scroll = u16::MAX;
    handle_key(&mut app, key('j'));
    assert_eq!(app.help_scroll, u16::MAX);
    handle_key(&mut app, key(' '));
    assert!(app.cfg.mappings[0].enabled);
    handle_key(&mut app, code(KeyCode::Esc));
    assert!(!app.show_help);
}

#[test]
fn form_keys_edit_and_commit() {
    let mut app = app_with(&["a"]);
    handle_key(&mut app, key('a'));
    assert!(app.form.is_some());
    handle_key(&mut app, code(KeyCode::Backspace));
    handle_key(&mut app, key('x'));
    assert_eq!(app.form.as_ref().unwrap().values[0], "rule-x");
    handle_key(&mut app, code(KeyCode::BackTab));
    assert_eq!(app.form.as_ref().unwrap().field, 9);
    handle_key(&mut app, code(KeyCode::Tab));
    handle_key(&mut app, code(KeyCode::Tab));
    handle_key(&mut app, code(KeyCode::Tab));
    assert_eq!(app.form.as_ref().unwrap().field, 2);
    handle_key(&mut app, code(KeyCode::Right));
    assert_eq!(app.form.as_ref().unwrap().values[2], "udp");
    handle_key(&mut app, key('z'));
    assert_eq!(app.form.as_ref().unwrap().values[2], "udp");
    handle_key(&mut app, key(' '));
    assert_eq!(app.form.as_ref().unwrap().values[2], "tcp");
    handle_key(&mut app, code(KeyCode::Down));
    handle_key(&mut app, code(KeyCode::Down));
    for c in "9000".chars() {
        handle_key(&mut app, key(c));
    }
    handle_key(&mut app, code(KeyCode::Down));
    for c in "192.0.2.9".chars() {
        handle_key(&mut app, key(c));
    }
    handle_key(&mut app, code(KeyCode::Down));
    for c in "443".chars() {
        handle_key(&mut app, key(c));
    }
    handle_key(&mut app, code(KeyCode::Down));
    handle_key(&mut app, code(KeyCode::Left));
    assert_eq!(app.form.as_ref().unwrap().values[7], "false");
    assert!(matches!(handle_key(&mut app, code(KeyCode::Enter)), Effect::Nothing));
    assert!(app.form.is_none());
    assert_eq!(ids(&app), vec!["a", "rule-x"]);
    let m = &app.cfg.mappings[1];
    assert_eq!((m.listen_port, m.target_port, m.enabled), (9000, 443, false));
    assert_eq!(m.target_ip, "192.0.2.9");
}

#[test]
fn form_escape_cancels() {
    let mut app = app_with(&["a"]);
    handle_key(&mut app, code(KeyCode::Enter));
    assert_eq!(app.form.as_ref().unwrap().edit_index, Some(0));
    handle_key(&mut app, code(KeyCode::Esc));
    assert!(app.form.is_none());
    assert_eq!(app.status, "edit cancelled");
    assert!(!app.dirty);
}

#[test]
fn keys_keep_a_valid_config_valid() {
    let mut app = app_with(&["a", "b", "c"]);
    let keys = [
        key(' '),
        key('j'),
        key('m'),
        key('d'),
        key('y'),
        key('e'),
        code(KeyCode::Tab),
        key('x'),
        code(KeyCode::Enter),
        code(KeyCode::Esc),
    ];
    for k in keys {
        handle_key(&mut app, k);
        validate(&app.cfg).unwrap();
    }
    assert_eq!(ids(&app), vec!["a", "c"]);
}

#[test]
fn apply_changes_only_the_status() {
    let mut app = app_with(&["a"]);
    app.dirty = true;
    app.help_scroll = 3;
    let r = ApplyReport { added: 0, deleted: 0, kept: 4 };
    let u = ufw::ApplyReport { added: 0, deleted: 0, kept: 0 };
    app.apply(Ok(r), Ok(u));
    assert_eq!(app.status, "applied nft (added=0, deleted=0, kept=4)");
    assert!(app.dirty && !app.should_quit && !app.show_help);
    assert_eq!(app.help_scroll, 3);
    assert_eq!(app.config_path, "nporter.toml");
    assert_eq!(ids(&app), vec!["a"]);
}
