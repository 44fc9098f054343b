use ssmux::config::{Config, ConnectionConfig};
use ssmux::params::Parameters;
use ssmux::session::{ConnectionState, WaitOutcome};
use ssmux::tui::app::{format_state, App, AppAction, Key, KeyCode};
use ssmux::tui::form::{ConnectionForm, FormAction, FormFault, ParameterRow};
use ssmux::tui::input::{next_char_boundary, previous_char_boundary, InputEdit, TextInput};

fn connection(name: &str, target: &str, document: Option<&str>) -> ConnectionConfig {
    ConnectionConfig {
        name: name.to_owned(),
        target: target.to_owned(),
        region: None,
        profile: None,
        document_name: document.map(|d| d.to_owned()),
        keep_on_exit: false,
        parameters: Parameters::new(),
        extra_args: Vec::new(),
    }
}

fn key(code: KeyCode) -> Key {
    Key { code, control: false, alt: false }
}

fn ch(c: char) -> Key {
    key(KeyCode::Char(c))
}

fn ctrl(c: char) -> Key {
    Key { code: KeyCode::Char(c), control: true, alt: false }
}

fn press(app: &mut App, k: Key) -> AppAction {
    assert!(app.within_limits());
    app.handle_key(&k)
}

fn type_text(app: &mut App, text: &str) {
    for c in text.chars() {
        press(app, ch(c));
    }
}

fn forwarding() -> Option<&'static str> {
    Some("AWS-StartPortForwardingSession")
}

fn app() -> App {
    App::new(Config {
        connections: vec![
            connection("web", "i-2", forwarding()),
            connection("db", "i-1", forwarding()),
            connection("shell", "i-3", None),
        ],
    })
}

#[test]
fn cursor_moves_by_whole_characters() {
    let mut input = TextInput::new("type here");
    input.insert('h');
    input.insert('é');
    input.insert('!');
    assert_eq!(input.value(), "hé!");
    assert_eq!(input.cursor(), 4);
    input.move_left();
    assert_eq!(input.cursor(), 3);
    input.move_left();
    assert_eq!(input.cursor(), 1);
    input.delete();
    assert_eq!(input.value(), "h!");
    input.move_end();
    input.backspace();
    assert_eq!(input.value(), "h");
    input.move_home();
    assert_eq!(input.cursor(), 0);
    input.backspace();
    assert_eq!(input.value(), "h");
    input.move_right();
    input.move_right();
    assert_eq!(input.cursor(), 1);
    assert_eq!(input.placeholder(), "type here");
}

#[test]
fn backspace_undoes_a_typed_character() {
    let mut input = TextInput::with_value("", "añb".to_owned());
    input.move_left();
    let before = (input.value().clone(), input.cursor());
    input.apply(InputEdit::Insert('€'));
    assert_eq!(input.value(), "añ€b");
    input.apply(InputEdit::Backspace);
    assert_eq!((input.value().clone(), input.cursor()), before);
}

#[test]
fn split_at_cursor_gives_both_sides() {
    let mut input = TextInput::with_value("", "añb".to_owned());
    input.move_left();
    let (before, after) = input.split_at_cursor();
    assert_eq!(before, "añ");
    assert_eq!(after, "b");
}

#[test]
fn char_boundaries_step_over_multibyte_characters() {
    assert_eq!(previous_char_boundary("aé", 3), Some(1));
    assert_eq!(previous_char_boundary("aé", 0), None);
    assert_eq!(next_char_boundary("aé", 1), 3);
    assert_eq!(next_char_boundary("aé", 3), 3);
}

#[test]
fn a_new_form_needs_a_name_and_a_target() {
    let form = ConnectionForm::new();
    assert_eq!(form.field_count(), 7);
    assert!(matches!(form.to_connection(), Err(FormFault::Required)));
    assert_eq!(form.to_connection().err().unwrap().message(), "Name and Target are required");
    assert_eq!(form.document_display(), "(none)");
}

#[test]
fn a_form_round_trips_its_connection() {
    let mut c = connection("db", "i-1", Some("AWS-StartPortForwardingSessionToRemoteHost"));
    c.region = Some("us-west-2".to_owned());
    c.keep_on_exit = true;
    c.parameters.insert("host".to_owned(), "db.example.test".to_owned());
    c.parameters.insert("portNumber".to_owned(), "5432".to_owned());
    let form = ConnectionForm::from_connection(&c);
    assert_eq!(form.edit_name().as_deref(), Some("db"));
    assert_eq!(form.parameters().len(), 2);
    let back = form.to_connection().ok().unwrap();
    assert!(back.same_as(&c));
}

#[test]
fn an_unknown_document_joins_the_choices() {
    let c = connection("db", "i-1", Some("Custom-Document"));
    let form = ConnectionForm::from_connection(&c);
    assert_eq!(form.document_options().len(), 5);
    assert_eq!(form.document_display(), "Custom-Document");
}

#[test]
fn parameter_rows_must_be_complete_and_distinct() {
    let row = ParameterRow::from_values("host".to_owned(), String::new());
    assert!(!row.is_empty());
    assert!(ParameterRow::new().is_empty());
    let mut app = App::new(Config { connections: Vec::new() });
    press(&mut app, ch('n'));
    type_text(&mut app, "db");
    press(&mut app, key(KeyCode::Tab));
    type_text(&mut app, "i-1");
    for _ in 0..4 {
        press(&mut app, key(KeyCode::Tab));
    }
    type_text(&mut app, "host");
    press(&mut app, key(KeyCode::Tab));
    press(&mut app, key(KeyCode::Tab));
    type_text(&mut app, "host");
    press(&mut app, key(KeyCode::Tab));
    type_text(&mut app, "x");
    let form = app.form().as_ref().unwrap();
    assert!(matches!(form.to_connection(), Err(FormFault::ParameterIncomplete(1))));
    assert_eq!(
        form.to_connection().err().unwrap().message(),
        "Parameter 1 needs both a key and a value"
    );
}

#[test]
fn duplicate_parameter_keys_are_refused() {
    let mut app = App::new(Config { connections: Vec::new() });
    press(&mut app, ch('n'));
    type_text(&mut app, "db");
    press(&mut app, key(KeyCode::Tab));
    type_text(&mut app, "i-1");
    for _ in 0..4 {
        press(&mut app, key(KeyCode::Tab));
    }
    type_text(&mut app, "host");
    press(&mut app, key(KeyCode::Tab));
    type_text(&mut app, "a");
    press(&mut app, key(KeyCode::Tab));
    type_text(&mut app, " host ");
    press(&mut app, key(KeyCode::Tab));
    type_text(&mut app, "b");
    let e = app.form().as_ref().unwrap().to_connection().err().unwrap();
    assert_eq!(e.message(), "Duplicate parameter key: host");
}

#[test]
fn saving_a_new_connection_through_the_form() {
    let mut app = App::new(Config { connections: vec![connection("web", "i-2", forwarding())] });
    press(&mut app, ch('n'));
    type_text(&mut app, " db ");
    press(&mut app, key(KeyCode::Tab));
    type_text(&mut app, "i-1");
    press(&mut app, key(KeyCode::Tab));
    press(&mut app, key(KeyCode::Tab));
    press(&mut app, key(KeyCode::Tab));
    press(&mut app, key(KeyCode::Enter));
    press(&mut app, key(KeyCode::Down));
    press(&mut app, key(KeyCode::Down));
    press(&mut app, key(KeyCode::Enter));
    assert_eq!(app.form().as_ref().unwrap().document_display(), "AWS-StartPortForwardingSession");
    press(&mut app, key(KeyCode::Tab));
    press(&mut app, key(KeyCode::Tab));
    assert_eq!(app.form().as_ref().unwrap().action(), Some(FormAction::Cancel));
    press(&mut app, key(KeyCode::Right));
    assert_eq!(app.form().as_ref().unwrap().action(), Some(FormAction::Save));
    match press(&mut app, key(KeyCode::Enter)) {
        AppAction::Save(pending) => {
            assert_eq!(pending.done_message, "saved db");
            assert!(pending.closes_form);
            assert_eq!(pending.config.connections.len(), 2);
            let c = &pending.config.connections[1];
            assert_eq!(c.name, "db");
            assert_eq!(c.document_name.as_deref(), Some("AWS-StartPortForwardingSession"));
            app.finish_save(pending, Ok(()));
        }
        _ => panic!("expected a save"),
    }
    assert!(app.form().is_none());
    assert_eq!(app.message(), "saved db");
    assert_eq!(app.config().connections.len(), 2);
}

#[test]
fn a_failed_write_keeps_the_form_and_reports_the_error() {
    let mut app = App::new(Config { connections: Vec::new() });
    press(&mut app, ch('n'));
    type_text(&mut app, "db");
    press(&mut app, key(KeyCode::Tab));
    type_text(&mut app, "i-1");
    for _ in 0..6 {
        press(&mut app, key(KeyCode::Tab));
    }
    press(&mut app, key(KeyCode::Right));
    match press(&mut app, key(KeyCode::Enter)) {
        AppAction::Save(pending) => app.finish_save(pending, Err("disk full".to_owned())),
        _ => panic!("expected a save"),
    }
    assert_eq!(app.message(), "disk full");
    assert!(app.form().is_some());
    assert!(app.config().connections.is_empty());
}

#[test]
fn escape_cancels_the_form() {
    let mut app = app();
    press(&mut app, ch('n'));
    type_text(&mut app, "x");
    assert!(matches!(press(&mut app, key(KeyCode::Esc)), AppAction::Nothing));
    assert!(app.form().is_none());
    assert_eq!(app.message(), "cancelled");
}

#[test]
fn selection_moves_within_the_rows() {
    let mut app = app();
    assert_eq!(app.selected_name().as_deref(), Some("db"));
    press(&mut app, key(KeyCode::Down));
    press(&mut app, ch('j'));
    press(&mut app, ch('j'));
    assert_eq!(app.selected(), 2);
    assert_eq!(app.selected_name().as_deref(), Some("web"));
    press(&mut app, ch('k'));
    press(&mut app, key(KeyCode::Up));
    press(&mut app, key(KeyCode::Up));
    assert_eq!(app.selected(), 0);
}

#[test]
fn the_filter_narrows_the_rows() {
    let mut app = app();
    press(&mut app, ch('/'));
    assert!(app.filtering());
    type_text(&mut app, "WE");
    let rows = app.visible_statuses();
    assert_eq!(rows.len(), 1);
    assert_eq!(rows[0].name, "web");
    press(&mut app, key(KeyCode::Enter));
    assert!(!app.filtering());
    assert_eq!(app.visible_statuses().len(), 1);
    press(&mut app, ch('/'));
    press(&mut app, key(KeyCode::Backspace));
    press(&mut app, key(KeyCode::Backspace));
    assert_eq!(app.visible_statuses().len(), 3);
}

#[test]
fn the_filter_matches_states_too() {
    let mut app = app();
    press(&mut app, ch('/'));
    type_text(&mut app, "stopped");
    assert_eq!(app.visible_statuses().len(), 3);
    type_text(&mut app, "x");
    assert!(app.visible_statuses().is_empty());
    assert_eq!(app.selected_name(), None);
}

#[test]
fn starting_launches_or_runs_interactively() {
    let mut app = app();
    match press(&mut app, ch('s')) {
        AppAction::Launch { name, config } => {
            assert_eq!(name, "db");
            assert_eq!(config.target, "i-1");
            app.finish_launch(&name, Some(Some(77)), 1000);
        }
        _ => panic!("expected a launch"),
    }
    assert_eq!(app.message(), "started db");
    assert!(matches!(press(&mut app, ch('s')), AppAction::Nothing));
    assert_eq!(app.message(), "connection db is already active");
    press(&mut app, ch('j'));
    match press(&mut app, ch('s')) {
        AppAction::Interactive { name, .. } => {
            assert_eq!(name, "shell");
            app.finish_interactive(&name, ssmux::tui::app::InteractiveOutcome::Ended);
        }
        _ => panic!("expected an interactive session"),
    }
    assert_eq!(app.message(), "session ended: shell");
}

#[test]
fn a_failed_launch_is_reported() {
    let mut app = app();
    if let AppAction::Launch { name, .. } = press(&mut app, ch('s')) {
        app.finish_launch(&name, None, 1);
    }
    assert_eq!(app.message(), "starting AWS session for db");
}

#[test]
fn stopping_kills_the_process_then_settles() {
    let mut app = app();
    if let AppAction::Launch { name, .. } = press(&mut app, ch('s')) {
        app.finish_launch(&name, Some(Some(5)), 1);
    }
    match press(&mut app, ch('x')) {
        AppAction::Kill { name } => {
            assert_eq!(name, "db");
            app.finish_kill(&name, true);
        }
        _ => panic!("expected a kill"),
    }
    assert_eq!(app.message(), "stopping db");
    app.record_wait("db", &WaitOutcome::Exited { success: false, code: Some(143) });
    let rows = app.visible_statuses();
    assert_eq!(rows[0].state, ConnectionState::Stopped);
    assert!(matches!(press(&mut app, ch('x')), AppAction::Nothing));
    assert_eq!(app.message(), "connection db is not running");
}

#[test]
fn busy_connections_cannot_be_edited_or_deleted() {
    let mut app = app();
    if let AppAction::Launch { name, .. } = press(&mut app, ch('s')) {
        app.finish_launch(&name, Some(Some(5)), 1);
    }
    press(&mut app, ch('e'));
    assert!(app.form().is_none());
    assert_eq!(app.message(), "stop the connection before editing it");
    press(&mut app, ch('d'));
    assert!(app.delete_confirmation().is_none());
    assert_eq!(app.message(), "stop the connection before deleting it");
    let names = app.shutdown();
    assert_eq!(names, vec!["db".to_owned()]);
}

#[test]
fn deleting_asks_first() {
    let mut app = app();
    press(&mut app, ch('d'));
    assert_eq!(app.delete_confirmation().as_deref(), Some("db"));
    press(&mut app, ch('n'));
    assert_eq!(app.message(), "delete cancelled");
    press(&mut app, ch('d'));
    press(&mut app, key(KeyCode::Right));
    assert!(app.delete_confirmation_selected());
    match press(&mut app, key(KeyCode::Enter)) {
        AppAction::Save(pending) => {
            assert_eq!(pending.done_message, "deleted db");
            assert!(!pending.closes_form);
            assert_eq!(pending.config.connections.len(), 2);
            app.finish_save(pending, Ok(()));
        }
        _ => panic!("expected a save"),
    }
    assert_eq!(app.config().connections.len(), 2);
    assert_eq!(app.visible_statuses().len(), 2);
}

#[test]
fn editing_opens_the_form_on_the_selected_connection() {
    let mut app = app();
    press(&mut app, ch('e'));
    let form = app.form().as_ref().unwrap();
    assert_eq!(form.edit_name().as_deref(), Some("db"));
    assert_eq!(form.fields()[0].input.value(), "db");
    assert_eq!(form.fields()[1].input.value(), "i-1");
    press(&mut app, key(KeyCode::End));
    type_text(&mut app, "2");
    for _ in 0..7 {
        press(&mut app, key(KeyCode::Tab));
    }
    press(&mut app, key(KeyCode::Right));
    match press(&mut app, key(KeyCode::Enter)) {
        AppAction::Save(pending) => {
            assert_eq!(pending.done_message, "saved db2");
            let names: Vec<&str> = pending.config.connections.iter().map(|c| c.name.as_str()).collect();
            assert_eq!(names, vec!["web", "db2", "shell"]);
        }
        _ => panic!("expected a save"),
    }
}

#[test]
fn renaming_onto_a_taken_name_is_refused() {
    let mut app = app();
    press(&mut app, ch('e'));
    press(&mut app, key(KeyCode::Home));
    press(&mut app, key(KeyCode::Delete));
    press(&mut app, key(KeyCode::Delete));
    type_text(&mut app, "web");
    for _ in 0..7 {
        press(&mut app, key(KeyCode::Tab));
    }
    press(&mut app, key(KeyCode::Right));
    assert!(matches!(press(&mut app, key(KeyCode::Enter)), AppAction::Nothing));
    assert_eq!(app.message(), "connection already exists: web");
}

#[test]
fn ctrl_d_removes_a_parameter_row() {
    let mut app = App::new(Config { connections: Vec::new() });
    press(&mut app, ch('n'));
    for _ in 0..5 {
        press(&mut app, key(KeyCode::Tab));
    }
    type_text(&mut app, "k");
    press(&mut app, key(KeyCode::Tab));
    type_text(&mut app, "v");
    press(&mut app, key(KeyCode::Tab));
    assert_eq!(app.form().as_ref().unwrap().parameters().len(), 2);
    press(&mut app, ctrl('d'));
    assert_eq!(app.form().as_ref().unwrap().parameters().len(), 1);
}

#[test]
fn quitting() {
    let mut app = app();
    assert!(matches!(press(&mut app, ch('q')), AppAction::Quit));
    assert!(matches!(press(&mut app, key(KeyCode::Esc)), AppAction::Quit));
    assert!(matches!(press(&mut app, ctrl('c')), AppAction::Quit));
}

#[test]
fn states_have_names() {
    assert_eq!(format_state(ConnectionState::Running), "running");
    assert_eq!(format_state(ConnectionState::Stopping), "stopping");
    assert_eq!(format_state(ConnectionState::Stopped), "stopped");
    assert_eq!(format_state(ConnectionState::Failed), "failed");
}

#[test]
fn the_selected_connection_is_its_definition() {
    let mut app = app();
    assert_eq!(app.selected_connection().unwrap().target, "i-1");
    press(&mut app, ch('/'));
    type_text(&mut app, "zzz");
    assert!(app.selected_connection().is_none());
}

#[test]
fn document_steps_wrap_around_the_choices() {
    let mut form = ConnectionForm::new();
    form.select_document(6);
    assert_eq!(form.document_index(), 2);
    form.select_document(-5);
    assert_eq!(form.document_index(), 1);
    form.select_document(-1);
    form.select_document(-1);
    assert_eq!(form.document_index(), 3);
    form.select_document(1);
    assert_eq!(form.document_index(), 0);
}
