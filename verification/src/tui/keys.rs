//! What each key press does to the rule manager's state.
//!
//! The decisions are taken here; the work that leaves the process (writing
//! the config, applying rules, probing targets, reloading) is returned as an
//! [`Effect`] for the caller to carry out.

use vstd::prelude::*;

use crate::config::spec_validate;
use crate::model::{Config, Mapping};
use crate::text::{owned, pop_char, push_char, str_eq};
use crate::tui::app::{
    add_form_opened, all_probes_started, clamped, lemma_commit_keeps_valid, lemma_delete_keeps_valid,
    lemma_toggle_enabled_keeps_valid, lemma_toggle_masquerade_keeps_valid, edit_form_opened, enabled_toggled, field_spec,
    form_committed, masquerade_toggled, moved_down, moved_up, selected_deleted,
    selected_probe_started, spec_field_kind, string_views, App, Confirm, FieldKind, Form,
    FIELD_COUNT,
};

verus! {

/// A key, as the terminal reports it.
#[derive(Debug, Clone, Copy, PartialEq, Eq, Structural)]
pub enum KeyCode {
    Char(char),
    Esc,
    Enter,
    Tab,
    BackTab,
    Up,
    Down,
    Left,
    Right,
    Backspace,
    Other,
}

/// A key press: the key and whether Control was held.
#[derive(Debug, Clone, Copy, PartialEq, Eq, Structural)]
pub struct KeyPress {
    pub code: KeyCode,
    pub ctrl: bool,
}

/// Work a key press asks the caller to do.
#[derive(Debug)]
pub enum Effect {
    Nothing,
    /// Write the config, then report with [`App::save`].
    Save,
    /// Read the config again, then report with [`App::reload`].
    Reload,
    /// Apply the rules (writing the config first when asked), then report
    /// with [`App::save`] and [`App::apply`].
    Apply { save_first: bool },
    /// Probe these mappings' targets, then report with [`App::poll_probes`].
    Probe(Vec<Mapping>),
}

/// The new text of a toggled field: the protocol flips between `tcp` and
/// `udp`, a flag between `true` and `false`; text fields do not toggle.
pub open spec fn toggled(kind: FieldKind, v: Seq<char>) -> Seq<char> {
    match kind {
        FieldKind::Proto => if v == "tcp"@ {
            "udp"@
        } else {
            "tcp"@
        },
        FieldKind::Bool => if v == "true"@ {
            "false"@
        } else {
            "true"@
        },
        FieldKind::Text => v,
    }
}

/// Toggles the form's current field.
pub fn toggle_value(f: &mut Form)
    requires
        old(f).field < FIELD_COUNT,
        old(f).values@.len() == FIELD_COUNT,
    ensures
        final(f).field == old(f).field,
        final(f).edit_index == old(f).edit_index,
        final(f).values@.len() == old(f).values@.len(),
        string_views(final(f).values@) == string_views(old(f).values@).update(
            old(f).field as int,
            toggled(spec_field_kind(old(f).field as int), old(f).values@[old(f).field as int]@),
        ),
{
    let i = f.field;
    let kind = field_spec(i).kind;
    let ghost before = string_views(f.values@);
    match kind {
        FieldKind::Proto => {
            let next = if str_eq(f.values[i].as_str(), "tcp") {
                owned("udp")
            } else {
                owned("tcp")
            };
            f.values.set(i, next);
        },
        FieldKind::Bool => {
            let next = if str_eq(f.values[i].as_str(), "true") {
                owned("false")
            } else {
                owned("true")
            };
            f.values.set(i, next);
        },
        FieldKind::Text => {},
    }
    assert(string_views(f.values@) =~= before.update(
        i as int,
        toggled(spec_field_kind(i as int), before[i as int]),
    ));
}

/// What a key does in the list view.
pub enum ListAction {
    Quit,
    Up,
    Down,
    Add,
    Edit,
    ToggleEnabled,
    ToggleMasquerade,
    AskDelete,
    Save,
    AskApply,
    Reload,
    ProbeOne,
    ProbeAll,
    Help,
    Ignore,
}

/// The list-view meaning of a key (`d` only when there is something to
/// delete).
pub open spec fn list_action(k: KeyPress, has_mappings: bool) -> ListAction {
    match k.code {
        KeyCode::Char('q') => ListAction::Quit,
        KeyCode::Char('c') if k.ctrl => ListAction::Quit,
        KeyCode::Up | KeyCode::Char('k') => ListAction::Up,
        KeyCode::Down | KeyCode::Char('j') => ListAction::Down,
        KeyCode::Char('a') => ListAction::Add,
        KeyCode::Char('e') | KeyCode::Enter => ListAction::Edit,
        KeyCode::Char(' ') => ListAction::ToggleEnabled,
        KeyCode::Char('m') => ListAction::ToggleMasquerade,
        KeyCode::Char('d') if has_mappings => ListAction::AskDelete,
        KeyCode::Char('w') => ListAction::Save,
        KeyCode::Char('A') => ListAction::AskApply,
        KeyCode::Char('r') => ListAction::Reload,
        KeyCode::Char('p') => ListAction::ProbeOne,
        KeyCode::Char('P') => ListAction::ProbeAll,
        KeyCode::Char('h') | KeyCode::Char('?') => ListAction::Help,
        _ => ListAction::Ignore,
    }
}

/// `b` is `a` with only the open form changed: now on field `field`, with
/// field texts `w`.
pub open spec fn form_edited(a: App, b: App, field: int, w: Seq<Seq<char>>) -> bool {
    &&& b == App { form: b.form, ..a }
    &&& b.form matches Some(g)
    &&& g.field == field
    &&& g.edit_index == a.form.unwrap().edit_index
    &&& string_views(g.values@) == w
}

/// `b` is `a` after key `code` in the open form: Esc closes it, Enter
/// commits it, Tab/Down and BackTab/Up move between fields (wrapping round),
/// Left/Right toggle the field, Backspace deletes the last character of a
/// text field, a character is typed into a text field (a space toggles the
/// others); the config and everything outside the form stay as they were.
pub open spec fn form_key_outcome(a: App, code: KeyCode, b: App) -> bool {
    let f = a.form.unwrap();
    let v = string_views(f.values@);
    let kind = spec_field_kind(f.field as int);
    match code {
        KeyCode::Esc => {
            &&& b == App { form: None, status: b.status, ..a }
            &&& b.status@ == "edit cancelled"@
        },
        KeyCode::Enter => form_committed(a, b),
        KeyCode::Tab | KeyCode::Down => form_edited(a, b, (f.field + 1) % (FIELD_COUNT as int), v),
        KeyCode::BackTab | KeyCode::Up => form_edited(a, b, 
            (f.field + FIELD_COUNT - 1) % (FIELD_COUNT as int),
            v,
        ),
        KeyCode::Left | KeyCode::Right => form_edited(a, b, 
            f.field as int,
            v.update(f.field as int, toggled(kind, v[f.field as int])),
        ),
        KeyCode::Backspace => form_edited(a, b, 
            f.field as int,
            if kind == FieldKind::Text && v[f.field as int].len() > 0 {
                v.update(f.field as int, v[f.field as int].drop_last())
            } else {
                v
            },
        ),
        KeyCode::Char(c) => form_edited(a, b, 
            f.field as int,
            if kind == FieldKind::Text {
                v.update(f.field as int, v[f.field as int].push(c))
            } else if c == ' ' {
                v.update(f.field as int, toggled(kind, v[f.field as int]))
            } else {
                v
            },
        ),
        KeyCode::Other => b == a,
    }
}

/// Handles a key while the mapping form is open.
pub fn handle_form_key(app: &mut App, code: KeyCode)
    requires
        old(app).wf(),
        old(app).form is Some,
    ensures
        final(app).wf(),
        form_key_outcome(*old(app), code, *final(app)),
{
    match code {
        KeyCode::Esc => {
            app.form = None;
            app.status = owned("edit cancelled");
        },
        KeyCode::Enter => app.commit_form(),
        KeyCode::Tab | KeyCode::Down => {
            let mut f = app.form.take().unwrap();
            f.field = (f.field + 1) % FIELD_COUNT;
            app.form = Some(f);
        },
        KeyCode::BackTab | KeyCode::Up => {
            let mut f = app.form.take().unwrap();
            f.field = (f.field + FIELD_COUNT - 1) % FIELD_COUNT;
            app.form = Some(f);
        },
        KeyCode::Left | KeyCode::Right => {
            let mut f = app.form.take().unwrap();
            toggle_value(&mut f);
            app.form = Some(f);
        },
        KeyCode::Backspace => {
            let mut f = app.form.take().unwrap();
            let i = f.field;
            if field_spec(i).kind == FieldKind::Text {
                let ghost before = string_views(f.values@);
                let mut s = f.values[i].clone();
                pop_char(&mut s);
                f.values.set(i, s);
                assert(string_views(f.values@) =~= if before[i as int].len() > 0 {
                    before.update(i as int, before[i as int].drop_last())
                } else {
                    before
                });
            }
            app.form = Some(f);
        },
        KeyCode::Char(c) => {
            let mut f = app.form.take().unwrap();
            let i = f.field;
            let kind = field_spec(i).kind;
            if kind == FieldKind::Text {
                let ghost before = string_views(f.values@);
                let mut s = f.values[i].clone();
                push_char(&mut s, c);
                f.values.set(i, s);
                assert(string_views(f.values@) =~= before.update(i as int, before[i as int].push(c)));
            } else if c == ' ' {
                toggle_value(&mut f);
            }
            app.form = Some(f);
        },
        KeyCode::Other => {},
    }
}

/// `b` is `a` after key `code` over the help text: `q`, Esc, `h` and `?`
/// close it, Down/`j` and Up/`k` scroll it (stopping at the ends).
pub open spec fn help_key_outcome(a: App, code: KeyCode, b: App) -> bool {
    match code {
        KeyCode::Char('q') | KeyCode::Esc | KeyCode::Char('h') | KeyCode::Char('?') => b == App {
            show_help: false,
            ..a
        },
        KeyCode::Down | KeyCode::Char('j') => b == App {
            help_scroll: if a.help_scroll < u16::MAX {
                (a.help_scroll + 1) as u16
            } else {
                a.help_scroll
            },
            ..a
        },
        KeyCode::Up | KeyCode::Char('k') => b == App {
            help_scroll: if a.help_scroll > 0 {
                (a.help_scroll - 1) as u16
            } else {
                0
            },
            ..a
        },
        _ => b == a,
    }
}

/// `b` and `e` after key `code` while a question is asked: `y` or `Y`
/// carries out the delete (of the row it was asked about) or asks the caller
/// to apply, saving first when there are unsaved changes; any other key
/// cancels. The question is closed either way.
pub open spec fn confirm_key_outcome(a: App, code: KeyCode, b: App, e: Effect) -> bool {
    let closed = App { confirm: None, ..a };
    if code == KeyCode::Char('y') || code == KeyCode::Char('Y') {
        match a.confirm {
            Some(Confirm::Delete(i)) => e is Nothing && selected_deleted(
                App { selected: i, ..closed },
                b,
            ),
            Some(Confirm::Apply) => e == (Effect::Apply { save_first: a.dirty }) && b == closed,
            None => e is Nothing && b == a,
        }
    } else {
        &&& e is Nothing
        &&& b == App { status: b.status, ..closed }
        &&& b.status@ == "cancelled"@
    }
}

/// `b` and `e` after key `k` in the list view.
pub open spec fn list_key_outcome(a: App, k: KeyPress, b: App, e: Effect) -> bool {
    match list_action(k, a.cfg.mappings@.len() > 0) {
        ListAction::Quit => e is Nothing && b == App { should_quit: true, ..a },
        ListAction::Up => e is Nothing && moved_up(a, b),
        ListAction::Down => e is Nothing && moved_down(a, b),
        ListAction::Add => e is Nothing && add_form_opened(a, b),
        ListAction::Edit => e is Nothing && edit_form_opened(a, b),
        ListAction::ToggleEnabled => e is Nothing && enabled_toggled(a, b),
        ListAction::ToggleMasquerade => e is Nothing && masquerade_toggled(a, b),
        ListAction::AskDelete => {
            &&& e is Nothing
            &&& b == App { confirm: Some(Confirm::Delete(a.selected)), status: b.status, ..a }
            &&& b.status@ == "delete selected rule? y to confirm"@
        },
        ListAction::Save => e is Save && b == a,
        ListAction::AskApply => {
            &&& e is Nothing
            &&& b == App { confirm: Some(Confirm::Apply), status: b.status, ..a }
            &&& b.status@ == "save and apply rules? y to confirm"@
        },
        ListAction::Reload => e is Reload && b == a,
        ListAction::ProbeOne => selected_probe_started(a, b) && (match a.selected_mapping_spec() {
            Some(m) => e matches Effect::Probe(v) && v@ == seq![m],
            None => e is Nothing,
        }),
        ListAction::ProbeAll => all_probes_started(a, b) && (e matches Effect::Probe(v) && v@
            == a.cfg.mappings@),
        ListAction::Help => e is Nothing && b == App { show_help: true, help_scroll: 0, ..a },
        ListAction::Ignore => e is Nothing && b == a,
    }
}

/// Handles one key press: the help text takes it when shown, then an open
/// question, then the form, and otherwise the list view.
pub fn handle_key(app: &mut App, key: KeyPress) -> (e: Effect)
    requires
        old(app).wf(),
        old(app).cfg.mappings@.len() < usize::MAX,
    ensures
        final(app).wf(),
        old(app).show_help ==> e is Nothing && help_key_outcome(*old(app), key.code, *final(app)),
        !old(app).show_help && old(app).confirm is Some ==> confirm_key_outcome(
            *old(app),
            key.code,
            *final(app),
            e,
        ),
        !old(app).show_help && old(app).confirm is None && old(app).form is Some ==> e is Nothing
            && form_key_outcome(*old(app), key.code, *final(app)),
        !old(app).show_help && old(app).confirm is None && old(app).form is None
            ==> list_key_outcome(*old(app), key, *final(app), e),
{
    if app.show_help {
        match key.code {
            KeyCode::Char('q') | KeyCode::Esc | KeyCode::Char('h') | KeyCode::Char('?') => {
                app.show_help = false;
            },
            KeyCode::Down | KeyCode::Char('j') => {
                app.help_scroll = app.help_scroll.saturating_add(1);
            },
            KeyCode::Up | KeyCode::Char('k') => {
                app.help_scroll = app.help_scroll.saturating_sub(1);
            },
            _ => {},
        }
        return Effect::Nothing;
    }
    if app.confirm.is_some() {
        let confirmed = key.code == KeyCode::Char('y') || key.code == KeyCode::Char('Y');
        let action = app.confirm.take();
        if confirmed {
            match action {
                Some(Confirm::Delete(i)) => {
                    app.selected = i;
                    app.delete_selected();
                    return Effect::Nothing;
                },
                Some(Confirm::Apply) => {
                    return Effect::Apply { save_first: app.dirty };
                },
                None => {
                    return Effect::Nothing;
                },
            }
        } else {
            app.status = owned("cancelled");
            return Effect::Nothing;
        }
    }
    if app.form.is_some() {
        handle_form_key(app, key.code);
        return Effect::Nothing;
    }
    match key.code {
        KeyCode::Char('q') => {
            app.should_quit = true;
        },
        KeyCode::Char('c') if key.ctrl => {
            app.should_quit = true;
        },
        KeyCode::Up | KeyCode::Char('k') => app.move_up(),
        KeyCode::Down | KeyCode::Char('j') => app.move_down(),
        KeyCode::Char('a') => app.open_add_form(),
        KeyCode::Char('e') | KeyCode::Enter => app.open_edit_form(),
        KeyCode::Char(' ') => app.toggle_enabled(),
        KeyCode::Char('m') => app.toggle_masquerade(),
        KeyCode::Char('d') if app.cfg.mappings.len() > 0 => {
            app.confirm = Some(Confirm::Delete(app.selected));
            app.status = owned("delete selected rule? y to confirm");
        },
        KeyCode::Char('w') => {
            return Effect::Save;
        },
        KeyCode::Char('A') => {
            app.confirm = Some(Confirm::Apply);
            app.status = owned("save and apply rules? y to confirm");
        },
        KeyCode::Char('r') => {
            return Effect::Reload;
        },
        KeyCode::Char('p') => {
            return match app.probe_selected() {
                Some(m) => {
                    let mut one: Vec<Mapping> = Vec::new();
                    one.push(m);
                    assert(one@ =~= seq![m]);
                    Effect::Probe(one)
                },
                None => Effect::Nothing,
            };
        },
        KeyCode::Char('P') => {
            return Effect::Probe(app.probe_all());
        },
        KeyCode::Char('h') | KeyCode::Char('?') => {
            app.show_help = true;
            app.help_scroll = 0;
        },
        _ => {},
    }
    Effect::Nothing
}

/// In the list view the arrow keys and their vi letters move the selection
/// and do nothing else: Down (or `j`) moves it one row down unless it is on
/// the last row, Up (or `k`) one row up unless it is on the first.
pub proof fn lemma_list_navigation(a: App, k: KeyPress, b: App, e: Effect)
    requires
        !a.show_help,
        a.confirm is None,
        a.form is None,
        list_key_outcome(a, k, b, e),
    ensures
        (k.code == KeyCode::Down || k.code == KeyCode::Char('j')) ==> {
            &&& e is Nothing
            &&& b == App { selected: b.selected, ..a }
            &&& a.selected + 1 < a.cfg.mappings@.len() ==> b.selected == a.selected + 1
            &&& a.selected + 1 >= a.cfg.mappings@.len() ==> b.selected == a.selected
        },
        (k.code == KeyCode::Up || k.code == KeyCode::Char('k')) ==> {
            &&& e is Nothing
            &&& b == App { selected: b.selected, ..a }
            &&& a.selected > 0 ==> b.selected == a.selected - 1
            &&& a.selected == 0 ==> b.selected == 0
        },
{
    let h = a.cfg.mappings@.len() > 0;
    if k.code == KeyCode::Down || k.code == KeyCode::Char('j') {
        assert(list_action(k, h) is Down);
        assert(a.cfg.mappings@.len() == a.cfg.mappings.len());
    }
    if k.code == KeyCode::Up || k.code == KeyCode::Char('k') {
        assert(list_action(k, h) is Up);
    }
}

/// `n` is `m` with mapping `i` changed in one flag only, flipped:
/// `masquerade` when `masq`, `enabled` otherwise.
pub open spec fn only_flipped(m: Seq<Mapping>, n: Seq<Mapping>, i: int, masq: bool) -> bool {
    &&& n.len() == m.len()
    &&& masq ==> n[i].masquerade == !m[i].masquerade && n[i] == (Mapping {
        masquerade: n[i].masquerade,
        ..m[i]
    })
    &&& !masq ==> n[i].enabled == !m[i].enabled && n[i] == (Mapping { enabled: n[i].enabled, ..m[i] })
    &&& forall|j: int| 0 <= j < m.len() && j != i ==> #[trigger] n[j] == m[j]
}

/// The command keys of the list view: `q` (or Ctrl-C) quits, `w` asks for a
/// save and `r` for a reload without touching the state, `A` asks before
/// applying and `d` before deleting the selected mapping (when there is one),
/// `h` or `?` opens the help at the top, `P` probes every mapping, space and
/// `m` flip `enabled` and `masquerade` of the selected mapping (marking the
/// config unsaved), `a` opens an empty form and `e` or Enter one on the
/// selected mapping.
pub proof fn lemma_list_commands(a: App, k: KeyPress, b: App, e: Effect)
    requires
        !a.show_help,
        a.confirm is None,
        a.form is None,
        list_key_outcome(a, k, b, e),
    ensures
        k.code == KeyCode::Char('q') || (k.code == KeyCode::Char('c') && k.ctrl) ==> e is Nothing
            && b == (App { should_quit: true, ..a }),
        k.code == KeyCode::Char('w') ==> e is Save && b == a,
        k.code == KeyCode::Char('r') ==> e is Reload && b == a,
        k.code == KeyCode::Char('A') ==> e is Nothing && b.confirm == Some(Confirm::Apply) && b.cfg
            == a.cfg && b.dirty == a.dirty,
        k.code == KeyCode::Char('d') && a.cfg.mappings@.len() > 0 ==> e is Nothing && b.confirm
            == Some(Confirm::Delete(a.selected)) && b.cfg == a.cfg,
        k.code == KeyCode::Char('d') && a.cfg.mappings@.len() == 0 ==> e is Nothing && b == a,
        k.code == KeyCode::Char('h') || k.code == KeyCode::Char('?') ==> e is Nothing && b.show_help
            && b.help_scroll == 0 && b.cfg == a.cfg,
        k.code == KeyCode::Char('P') ==> (e matches Effect::Probe(v) && v@ == a.cfg.mappings@),
        k.code == KeyCode::Char(' ') && a.selected < a.cfg.mappings@.len() ==> e is Nothing && b.dirty
            && only_flipped(a.cfg.mappings@, b.cfg.mappings@, a.selected as int, false),
        k.code == KeyCode::Char('m') && a.selected < a.cfg.mappings@.len() ==> e is Nothing && b.dirty
            && only_flipped(a.cfg.mappings@, b.cfg.mappings@, a.selected as int, true),
        k.code == KeyCode::Char('a') ==> e is Nothing && b.cfg == a.cfg && (b.form matches Some(f)
            && f.edit_index is None),
        (k.code == KeyCode::Char('e') || k.code == KeyCode::Enter) && a.selected
            < a.cfg.mappings@.len() ==> e is Nothing && b.cfg == a.cfg && (b.form matches Some(f)
            && f.edit_index == Some(a.selected)),
{
    assert(a.cfg.mappings@.len() == a.cfg.mappings.len());
}

/// Key handling never turns a valid config into an invalid one: whatever
/// key is pressed in whatever view, the config afterwards (as
/// [`handle_key`] states it) passes validation when the one before did.
pub proof fn lemma_key_keeps_config_valid(a: App, k: KeyPress, b: App, e: Effect)
    requires
        spec_validate(a.cfg) is None,
        a.show_help ==> help_key_outcome(a, k.code, b),
        !a.show_help && a.confirm is Some ==> confirm_key_outcome(a, k.code, b, e),
        !a.show_help && a.confirm is None && a.form is Some ==> form_key_outcome(a, k.code, b),
        !a.show_help && a.confirm is None && a.form is None ==> list_key_outcome(a, k, b, e),
    ensures
        spec_validate(b.cfg) is None,
{
    if a.show_help {
    } else if a.confirm is Some {
        if k.code == KeyCode::Char('y') || k.code == KeyCode::Char('Y') {
            if let Some(Confirm::Delete(i)) = a.confirm {
                lemma_delete_keeps_valid(App { selected: i, confirm: None, ..a }, b);
            }
        }
    } else if a.form is Some {
        if k.code == KeyCode::Enter {
            lemma_commit_keeps_valid(a, b);
        }
    } else {
        match list_action(k, a.cfg.mappings@.len() > 0) {
            ListAction::ToggleEnabled => lemma_toggle_enabled_keeps_valid(a, b),
            ListAction::ToggleMasquerade => lemma_toggle_masquerade_keeps_valid(a, b),
            _ => {},
        }
    }
}

/// The selection points at a mapping, or is 0 when there are none; and a
/// pending delete question names a mapping.
pub open spec fn selection_ok(a: App) -> bool {
    &&& (a.selected < a.cfg.mappings@.len() || (a.cfg.mappings@.len() == 0 && a.selected == 0))
    &&& (a.confirm matches Some(Confirm::Delete(i)) ==> i < a.cfg.mappings@.len())
}

/// Key handling keeps the selection on a mapping (or at 0 with none), and a
/// delete question always names an existing mapping (for a well-formed state
/// with room for one more mapping, as [`handle_key`] asks).
pub proof fn lemma_key_keeps_selection(a: App, k: KeyPress, b: App, e: Effect)
    requires
        a.wf(),
        a.cfg.mappings@.len() < usize::MAX,
        selection_ok(a),
        a.show_help ==> help_key_outcome(a, k.code, b),
        !a.show_help && a.confirm is Some ==> confirm_key_outcome(a, k.code, b, e),
        !a.show_help && a.confirm is None && a.form is Some ==> form_key_outcome(a, k.code, b),
        !a.show_help && a.confirm is None && a.form is None ==> list_key_outcome(a, k, b, e),
    ensures
        selection_ok(b),
{
    if a.show_help {
        assert(b.cfg == a.cfg && b.selected == a.selected && b.confirm == a.confirm);
    } else if a.confirm is Some {
        if k.code == KeyCode::Char('y') || k.code == KeyCode::Char('Y') {
            match a.confirm {
                Some(Confirm::Delete(i)) => {
                    assert(i < a.cfg.mappings@.len());
                },
                _ => {},
            }
        }
    } else if a.form is Some {
        if k.code == KeyCode::Enter {
            lemma_commit_keeps_selection(a, b);
        } else {
            assert(b.cfg == a.cfg && b.selected == a.selected && b.confirm == a.confirm);
        }
    } else {
        match list_action(k, a.cfg.mappings@.len() > 0) {
            ListAction::AskDelete => {
                assert(a.cfg.mappings@.len() > 0);
            },
            _ => {},
        }
    }
}

proof fn lemma_commit_keeps_selection(a: App, b: App)
    requires
        a.wf(),
        a.cfg.mappings@.len() < usize::MAX,
        selection_ok(a),
        a.confirm is None,
        form_committed(a, b),
    ensures
        selection_ok(b),
{
    if let Some(f) = a.form {
        let v = string_views(f.values@);
        if let Ok(p) = crate::tui::app::spec_form_values(v) {
            let m = choose|m: Mapping| #[trigger] crate::tui::app::mapping_of_form(m, v, p) && ({
                let ms = crate::tui::app::committed(a.cfg.mappings@, f.edit_index, m);
                match crate::config::validate_fault(a.cfg.nftables, a.cfg.prometheus, ms) {
                    Some(fault) => crate::tui::app::form_refused(
                        a,
                        b,
                        crate::config::fault_text(fault),
                    ),
                    None => {
                        &&& b == App {
                            cfg: b.cfg,
                            selected: b.selected,
                            dirty: true,
                            form: None,
                            status: b.status,
                            ..a
                        }
                        &&& b.cfg.mappings@ == ms
                        &&& b.selected == if f.edit_index is None {
                            (ms.len() - 1) as usize
                        } else {
                            a.selected
                        }
                    },
                }
            });
            let ms = crate::tui::app::committed(a.cfg.mappings@, f.edit_index, m);
            if crate::config::validate_fault(a.cfg.nftables, a.cfg.prometheus, ms) is None {
                match f.edit_index {
                    Some(i) => {
                        assert(ms.len() == a.cfg.mappings@.len());
                    },
                    None => {
                        assert(ms.len() == a.cfg.mappings@.len() + 1);
                    },
                }
            }
        }
    }
}

/// Reloading the config from the list view keeps the selection on a mapping
/// (or at 0 with none).
pub proof fn lemma_reload_keeps_selection(a: App, loaded: Result<Config, String>, b: App)
    requires
        selection_ok(a),
        a.confirm is None,
        b.confirm == a.confirm,
        match loaded {
            Ok(cfg) => b.cfg == cfg && b.selected == clamped(a.selected, cfg.mappings@.len()),
            Err(_) => b.cfg == a.cfg && b.selected == a.selected,
        },
    ensures
        selection_ok(b),
{
}

} // verus!
