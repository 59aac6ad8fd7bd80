use envctl::registry::SecretRegistry;
use envctl::store::Store;
use envctl::tui::groups::{group_color, value_groups};
use envctl::tui::paint::{
    centered_parts, pad, short, truncate, Color, Span, TextLine,
};
use envctl::tui::select::{clamp_index, move_index};
use envctl::tui::state::{App, ConfirmTarget, EditTarget, Editor, Level, Mode, SwitcherKind};
use envctl::tui::update::{KeyCode, KeyEvent};

fn seeded() -> App {
    let mut store = Store::open_memory_for_tests().unwrap();
    store.add_project("bowtieduck", None).unwrap();
    store.add_environment("dev", None).unwrap();
    store.add_secret("DATABASE_URL", None).unwrap();
    store.add_secret("OPENAI_API_KEY", None).unwrap();
    App::new(store).unwrap()
}

fn press(app: &mut App, code: KeyCode) {
    app.handle_key(KeyEvent { code, ctrl: false });
}

fn press_ctrl(app: &mut App, c: char) {
    app.handle_key(KeyEvent { code: KeyCode::Char(c), ctrl: true });
}

fn type_text(app: &mut App, text: &str) {
    for c in text.chars() {
        press(app, KeyCode::Char(c));
    }
}

fn texts(spans: &[Span]) -> Vec<&str> {
    spans.iter().map(|span| span.text.as_str()).collect()
}

fn line_text(line: &TextLine) -> String {
    match line {
        TextLine::Whole(span) => span.text.clone(),
        TextLine::Spans(spans) => texts(spans).concat(),
    }
}

#[test]
fn search_filters_rows() {
    let mut app = seeded();
    app.filter = "openai".to_string();
    let filtered = app.filtered_rows();
    assert_eq!(filtered.len(), 1);
    assert_eq!(app.rows[filtered[0]].secret.key, "OPENAI_API_KEY");
}

#[test]
fn assignment_toggle_updates_store() {
    let mut app = seeded();
    app.selected_row = 0;
    app.toggle_assignment();
    let secret = app.store.get_secret("DATABASE_URL").unwrap();
    assert_eq!(secret.assigned_project_ids.len(), 1);
}

#[test]
fn coverage_reflects_assignment_and_variants() {
    let mut app = seeded();
    app.store.assign_secret("DATABASE_URL", "bowtieduck").unwrap();
    app.store.set_variant("DATABASE_URL", "dev", "postgres://localhost/dev").unwrap();
    app.refresh();
    let (resolved, total, missing) = app.coverage().unwrap();
    assert_eq!((resolved, total), (1, 1));
    assert!(missing.is_empty());
}

#[test]
fn detail_edit_writes_value_and_returns_to_detail() {
    let mut app = seeded();
    app.selected_row = 0;

    press(&mut app, KeyCode::Enter);
    assert_eq!(app.mode, Mode::Detail);
    press(&mut app, KeyCode::Enter);
    assert_eq!(app.mode, Mode::Editor);

    type_text(&mut app, "postgres://localhost/dev");
    press(&mut app, KeyCode::Enter);

    assert_eq!(app.mode, Mode::Detail, "editor should return to the detail view");
    assert_eq!(
        app.store.get_variant("DATABASE_URL", "dev").unwrap().as_deref(),
        Some("postgres://localhost/dev")
    );
}

fn two_environments() -> App {
    let mut store = Store::open_memory_for_tests().unwrap();
    store.add_environment("dev", None).unwrap();
    store.add_environment("prod", None).unwrap();
    store.add_secret("DATABASE_URL", None).unwrap();
    store.set_variant("DATABASE_URL", "dev", "postgres://localhost/dev").unwrap();
    App::new(store).unwrap()
}

#[test]
fn copy_value_between_environments() {
    let mut app = two_environments();
    app.selected_row = 0;

    press(&mut app, KeyCode::Enter);
    press(&mut app, KeyCode::Char('y'));
    press(&mut app, KeyCode::Down);
    press(&mut app, KeyCode::Char('p'));

    assert_eq!(
        app.store.get_variant("DATABASE_URL", "prod").unwrap().as_deref(),
        Some("postgres://localhost/dev")
    );

    let row = app.rows.iter().find(|row| row.secret.key == "DATABASE_URL").unwrap();
    let groups = value_groups(row);
    assert_eq!(groups.len(), 1);
    assert_eq!(groups.get("postgres://localhost/dev"), Some('A'));
}

#[test]
fn duplicate_add_reports_error_without_crashing() {
    let mut app = seeded();
    let editor = Editor::new(EditTarget::AddSecret, "New secret key", "DATABASE_URL", false);
    app.commit_editor(&editor);
    assert_eq!(app.status.level, Level::Error);
    assert!(app.status.text.contains("already exists"));
}

#[test]
fn quitting_takes_the_quit_key_while_browsing() {
    let mut app = seeded();
    press(&mut app, KeyCode::Char('?'));
    assert_eq!(app.mode, Mode::Help);
    press(&mut app, KeyCode::Char('q'));
    assert_eq!(app.mode, Mode::Browse);
    assert!(!app.should_quit);
    press(&mut app, KeyCode::Char('q'));
    assert!(app.should_quit);
}

#[test]
fn live_search_follows_the_field() {
    let mut app = seeded();
    press(&mut app, KeyCode::Char('/'));
    type_text(&mut app, "OPEN");
    assert_eq!(app.filter, "OPEN");
    assert_eq!(app.filtered_rows(), vec![1]);
    press(&mut app, KeyCode::Backspace);
    press(&mut app, KeyCode::Home);
    press(&mut app, KeyCode::Delete);
    assert_eq!(app.filter, "PE");
    press_ctrl(&mut app, 'u');
    assert_eq!(app.filter, "");
    press(&mut app, KeyCode::Esc);
    assert_eq!(app.mode, Mode::Browse);
    assert!(app.editor.is_none());
}

#[test]
fn names_must_not_be_blank() {
    let mut app = seeded();
    press(&mut app, KeyCode::Char('a'));
    type_text(&mut app, "  ");
    press(&mut app, KeyCode::Enter);
    assert_eq!(app.status.text, "Value cannot be empty.");
    assert_eq!(app.status.level, Level::Error);
    press(&mut app, KeyCode::Char('a'));
    type_text(&mut app, " NEW ");
    press(&mut app, KeyCode::Enter);
    assert_eq!(app.status.text, "Added secret NEW");
    assert_eq!(app.rows.len(), 3);
}

#[test]
fn empty_value_clears_the_value() {
    let mut app = two_environments();
    press(&mut app, KeyCode::Char('v'));
    press_ctrl(&mut app, 'u');
    press(&mut app, KeyCode::Enter);
    assert_eq!(app.status.text, "Cleared DATABASE_URL for dev");
    assert_eq!(app.store.get_variant("DATABASE_URL", "dev").unwrap(), None);
}

#[test]
fn new_project_becomes_active() {
    let mut app = seeded();
    press(&mut app, KeyCode::Char('p'));
    assert_eq!(app.mode, Mode::Switcher);
    press_ctrl(&mut app, 'n');
    type_text(&mut app, "aardvark");
    press(&mut app, KeyCode::Enter);
    assert_eq!(app.status.text, "Added project aardvark");
    assert_eq!(app.active_project().unwrap().name, "aardvark");
    assert_eq!(app.mode, Mode::Browse);
}

#[test]
fn switcher_filters_and_selects() {
    let mut app = two_environments();
    press(&mut app, KeyCode::Char('e'));
    type_text(&mut app, "PR");
    let items = app.switcher_items(app.switcher.as_ref().unwrap());
    assert_eq!(items, vec![(1, "prod".to_string())]);
    press(&mut app, KeyCode::Enter);
    assert_eq!(app.active_environment().unwrap().name, "prod");
    press(&mut app, KeyCode::Char('e'));
    press(&mut app, KeyCode::Up);
    press(&mut app, KeyCode::Up);
    assert_eq!(app.switcher.as_ref().unwrap().selected, 0);
    assert_eq!(app.switcher.as_ref().unwrap().kind, SwitcherKind::Environment);
    press_ctrl(&mut app, 'r');
    type_text(&mut app, "elopment");
    press(&mut app, KeyCode::Enter);
    assert_eq!(app.status.text, "Renamed environment dev to development");
}

#[test]
fn deletion_is_asked_for() {
    let mut app = seeded();
    press(&mut app, KeyCode::Char('d'));
    assert_eq!(app.mode, Mode::Confirm);
    press(&mut app, KeyCode::Char('n'));
    assert_eq!(app.rows.len(), 2);
    press(&mut app, KeyCode::Char('d'));
    press(&mut app, KeyCode::Char('y'));
    assert_eq!(app.status.text, "Deleted secret DATABASE_URL");
    assert_eq!(app.rows.len(), 1);
}

#[test]
fn environment_is_deleted_with_its_values() {
    let mut app = two_environments();
    press(&mut app, KeyCode::Char('e'));
    press_ctrl(&mut app, 'd');
    assert!(matches!(&app.confirm, Some(ConfirmTarget::Environment(name)) if name == "dev"));
    press(&mut app, KeyCode::Char('y'));
    assert_eq!(app.status.text, "Deleted environment dev");
    assert_eq!(app.environments.len(), 1);
    assert_eq!(app.active_env, 0);
}

#[test]
fn nothing_is_pasted_before_it_is_copied() {
    let mut app = two_environments();
    press(&mut app, KeyCode::Enter);
    press(&mut app, KeyCode::Char('p'));
    assert_eq!(app.status.text, "Nothing to paste — press y to copy first.");
    press(&mut app, KeyCode::Char('j'));
    press(&mut app, KeyCode::Char('y'));
    assert_eq!(app.status.text, "prod has no value to copy.");
    press(&mut app, KeyCode::Char('k'));
    press(&mut app, KeyCode::Char('d'));
    assert_eq!(app.status.text, "Cleared DATABASE_URL for dev");
    press(&mut app, KeyCode::Esc);
    assert_eq!(app.mode, Mode::Browse);
    assert!(app.detail.is_none());
}

#[test]
fn moving_to_another_environment_hides_values() {
    let mut app = two_environments();
    press(&mut app, KeyCode::Char('r'));
    assert!(app.reveal_cell);
    press(&mut app, KeyCode::Right);
    assert_eq!(app.active_env, 1);
    assert!(!app.reveal_cell);
    press(&mut app, KeyCode::PageDown);
    assert_eq!(app.selected_row, 0);
}

#[test]
fn indices_stay_in_their_lists() {
    assert_eq!(clamp_index(5, 3), 2);
    assert_eq!(clamp_index(5, 0), 0);
    assert_eq!(move_index(1, 3, 10), 2);
    assert_eq!(move_index(1, 3, -10), 0);
    assert_eq!(move_index(1, 0, 1), 0);
}

#[test]
fn erasing_undoes_typing() {
    let editor = Editor::new(EditTarget::AddSecret, "t", "ab", false);
    let editor = editor.move_to(1).insert('x');
    assert_eq!(editor.value(), "axb");
    assert_eq!(editor.cursor(), 2);
    let editor = editor.backspace();
    assert_eq!(editor.value(), "ab");
    assert_eq!(editor.cursor(), 1);
}

#[test]
fn table_hides_values_until_they_are_revealed() {
    let mut app = two_environments();
    let table = app.table();
    assert_eq!(table.title, "Secrets · all");
    assert_eq!(texts(&table.header), vec!["KEY", "✓", "dev", "prod", "value · dev"]);
    assert_eq!(
        texts(&table.rows[0].cells),
        vec!["DATABASE_URL", " ", "●", "○", "••••••••"]
    );
    assert_eq!(table.selected, Some(0));
    press(&mut app, KeyCode::Char('r'));
    assert_eq!(texts(&app.table().rows[0].cells)[4], "postgres://localhost/dev");
    app.store.set_variant("DATABASE_URL", "dev", "postgres://localhost/dev2").unwrap();
    app.refresh();
    assert_eq!(texts(&app.table().rows[0].cells)[4], "postgres://localhost/de…");
    app.filter = "nothing".to_string();
    let table = app.table();
    assert_eq!(table.title, "Secrets · all   /nothing");
    assert_eq!(
        table.hint.as_deref(),
        Some("No secrets match. Press f to show all, or / to clear the search.")
    );
}

#[test]
fn context_tells_what_is_missing() {
    let mut app = seeded();
    app.store.assign_secret("DATABASE_URL", "bowtieduck").unwrap();
    app.refresh();
    assert_eq!(
        line_text(&app.context_panel().lines[0]),
        "envctl   Project bowtieduck   Env dev   Coverage 0/1 ⚠ DATABASE_URL   sync 5"
    );
    let rail: Vec<String> = app.rail_panel().lines.iter().map(line_text).collect();
    assert_eq!(rail, vec!["PROJECTS", "▸ bowtieduck", "", "ENVIRONMENTS", "▸ dev"]);
    let empty = App::new(Store::open_memory_for_tests().unwrap()).unwrap();
    assert_eq!(
        line_text(&empty.context_panel().lines[0]),
        "envctl   Project —   Env —   Coverage —   sync 0"
    );
    assert_eq!(line_text(&empty.rail_panel().lines[1]), "  (none)");
}

#[test]
fn footer_shows_the_message() {
    let mut app = seeded();
    assert_eq!(line_text(&app.footer_panel().lines[0]), "");
    press(&mut app, KeyCode::Char('f'));
    let lines = app.footer_panel().lines;
    match &lines[0] {
        TextLine::Whole(span) => {
            assert_eq!(span.text, "Showing secrets assigned to the active project");
            assert_eq!(span.style.color, Some(Color::Green));
        }
        line => panic!("not one text: {line:?}"),
    }
    press(&mut app, KeyCode::Char('S'));
    assert!(app.status.text.starts_with("sync: 4 op(s), latest secret.add at "));
}

#[test]
fn detail_shows_which_values_are_equal() {
    let mut app = two_environments();
    app.store.set_variant("DATABASE_URL", "prod", "postgres://localhost/dev").unwrap();
    app.refresh();
    press(&mut app, KeyCode::Enter);
    let popup = app.popup().unwrap();
    assert_eq!((popup.width, popup.height), (78, 74));
    assert_eq!(popup.panel.title.as_deref(), Some(" DATABASE_URL "));
    let lines: Vec<String> = popup.panel.lines.iter().map(line_text).collect();
    assert_eq!(lines[0], "Description: —");
    assert_eq!(lines[1], "Assigned to: (no projects)");
    assert_eq!(lines[4], "▸ dev           ≡A ••••••••");
    assert_eq!(lines[5], "  prod          ≡A ••••••••");
    press(&mut app, KeyCode::Char('r'));
    let popup = app.popup().unwrap();
    assert_eq!(line_text(&popup.panel.lines[5]), "  prod          ≡A postgres://localhost/dev");
}

#[test]
fn masked_field_shows_dots() {
    let mut app = two_environments();
    press(&mut app, KeyCode::Char('v'));
    let popup = app.popup().unwrap();
    assert_eq!(popup.panel.title.as_deref(), Some("DATABASE_URL · dev  (empty clears)"));
    assert_eq!(line_text(&popup.panel.lines[0]), format!("{} ", "•".repeat(24)));
    press_ctrl(&mut app, 'r');
    press(&mut app, KeyCode::Home);
    let popup = app.popup().unwrap();
    match &popup.panel.lines[0] {
        TextLine::Spans(spans) => {
            assert_eq!(texts(spans), vec!["", "p", "ostgres://localhost/dev"]);
            assert!(spans[1].style.reversed);
        }
        line => panic!("one text: {line:?}"),
    }
}

#[test]
fn popups_of_the_other_modes() {
    let mut app = seeded();
    assert!(app.popup().is_none());
    press(&mut app, KeyCode::Char('d'));
    let popup = app.popup().unwrap();
    assert_eq!(
        line_text(&popup.panel.lines[0]),
        "Delete secret \"DATABASE_URL\" and its variants?"
    );
    press(&mut app, KeyCode::Esc);
    press(&mut app, KeyCode::Char('p'));
    let popup = app.popup().unwrap();
    let lines: Vec<String> = popup.panel.lines.iter().map(line_text).collect();
    assert_eq!(lines[0], "filter: —");
    assert_eq!(lines[2], "▸ bowtieduck");
    type_text(&mut app, "zzz");
    let popup = app.popup().unwrap();
    assert_eq!(line_text(&popup.panel.lines[2]), "  (no matches — ctrl-n to add)");
    press(&mut app, KeyCode::Esc);
    press(&mut app, KeyCode::Char('?'));
    let popup = app.popup().unwrap();
    assert_eq!(popup.panel.lines.len(), 19);
    assert_eq!(line_text(&popup.panel.lines[10]), "  a                   Add a secret");
}

#[test]
fn groups_have_colours_in_turn() {
    assert_eq!(group_color('A'), Color::Yellow);
    assert_eq!(group_color('B'), Color::Magenta);
    assert_eq!(group_color('G'), Color::Yellow);
    assert_eq!(group_color('@'), Color::Green);
}

#[test]
fn texts_are_cut_and_padded() {
    assert_eq!(truncate("abcdef", 6), "abcdef");
    assert_eq!(truncate("abcdefg", 6), "abcde…");
    assert_eq!(truncate("ab", 0), "…");
    assert_eq!(short("production", 4), "prod");
    assert_eq!(pad("ab", 4), "ab  ");
    assert_eq!(pad("abcde", 4), "abcde");
    assert_eq!(centered_parts(72), (14, 72, 14));
}

#[test]
fn refused_requests_are_told_and_change_no_list() {
    let mut app = seeded();
    app.store.remove_secret("DATABASE_URL").unwrap();
    let refusals = vec![
        vec![KeyCode::Char(' ')],
        vec![KeyCode::Char('v'), KeyCode::Char('x'), KeyCode::Enter],
        vec![KeyCode::Char('c'), KeyCode::Char('x'), KeyCode::Enter],
        vec![KeyCode::Char('R'), KeyCode::Char('x'), KeyCode::Enter],
        vec![KeyCode::Char('d'), KeyCode::Char('y')],
        vec![KeyCode::Enter, KeyCode::Char('d'), KeyCode::Esc],
    ];
    for keys in refusals {
        let rows = app.rows.len();
        let operations = app.store.sync_status().unwrap().operation_count;
        app.status.text.clear();
        for code in &keys {
            press(&mut app, *code);
        }
        assert_eq!(app.mode, Mode::Browse, "{keys:?}");
        assert_eq!(app.status.level, Level::Error, "{keys:?}");
        assert_eq!(app.status.text, "Secret \"DATABASE_URL\" not found.", "{keys:?}");
        assert_eq!(app.rows.len(), rows, "{keys:?}");
        assert_eq!(app.store.sync_status().unwrap().operation_count, operations, "{keys:?}");
    }
}

#[test]
fn values_are_revealed_until_the_selection_changes() {
    let moves = vec![
        KeyCode::Char('j'),
        KeyCode::Down,
        KeyCode::PageDown,
        KeyCode::End,
    ];
    for code in moves {
        let mut app = seeded();
        press(&mut app, KeyCode::Char('r'));
        press(&mut app, KeyCode::Char('k'));
        press(&mut app, KeyCode::Home);
        assert!(app.reveal_cell, "{code:?}");
        press(&mut app, code);
        assert_eq!(app.selected_row, 1, "{code:?}");
        assert!(!app.reveal_cell, "{code:?}");
        press(&mut app, KeyCode::Char('r'));
        press(&mut app, KeyCode::End);
        assert!(app.reveal_cell, "{code:?}");
        press(&mut app, KeyCode::Home);
        assert!(!app.reveal_cell, "{code:?}");
    }
}

#[test]
fn values_are_hidden_when_another_secret_comes_under_the_selection() {
    let mut app = seeded();
    press(&mut app, KeyCode::Char('r'));
    press(&mut app, KeyCode::Char('f'));
    assert_eq!(app.selected_row, 0);
    assert!(!app.reveal_cell);

    let mut app = seeded();
    press(&mut app, KeyCode::Char('r'));
    press(&mut app, KeyCode::Char('/'));
    assert!(app.reveal_cell);
    press(&mut app, KeyCode::Char('d'));
    assert!(app.reveal_cell);
    type_text(&mut app, "x");
    assert!(!app.reveal_cell);

    let mut app = seeded();
    press(&mut app, KeyCode::Char('r'));
    press(&mut app, KeyCode::Char('d'));
    assert!(app.reveal_cell);
    press(&mut app, KeyCode::Char('y'));
    assert_eq!(app.status.text, "Deleted secret DATABASE_URL");
    assert_eq!(app.selected_row, 0);
    assert!(!app.reveal_cell);

    let mut app = seeded();
    press(&mut app, KeyCode::Char('r'));
    press(&mut app, KeyCode::Char(' '));
    assert!(app.reveal_cell);
}
