use hst::app::App;
use hst::history::{HistoryEntry, HistorySource, ShellKind};
use hst::input::{
    command_for_key, delete_selected, finish_delete, handle_key, KeyCode, KeyCommand, KeyEvent,
};

fn key(code: KeyCode) -> KeyEvent {
    KeyEvent::new(code, false)
}

fn ctrl(c: char) -> KeyEvent {
    KeyEvent::new(KeyCode::Char(c), true)
}

fn app_with(commands: &[&str]) -> App {
    let source = HistorySource {
        shell: ShellKind::Bash,
        path: "/tmp/history".to_string(),
    };
    let entries = commands
        .iter()
        .map(|command| HistoryEntry {
            command: command.to_string(),
            raw_line: command.to_string(),
        })
        .collect();
    App::new(source, entries)
}

#[test]
fn printable_q_updates_query_instead_of_quitting() {
    let mut app = app_with(&["query command"]);

    handle_key(&mut app, key(KeyCode::Char('q')));

    assert_eq!(app.query, "q");
    assert!(!app.should_quit);
}

#[test]
fn enter_accepts_selected_command() {
    let mut app = app_with(&["one", "two"]);
    handle_key(&mut app, key(KeyCode::Down));

    handle_key(&mut app, key(KeyCode::Enter));

    assert_eq!(app.accepted_command, Some("two".to_string()));
    assert!(app.should_quit);
}

#[test]
fn escape_cancels_without_command() {
    let mut app = app_with(&["one"]);

    handle_key(&mut app, key(KeyCode::Esc));

    assert_eq!(app.accepted_command, None);
    assert!(app.should_quit);
}

#[test]
fn control_keys_map_to_commands() {
    assert_eq!(command_for_key(ctrl('c')), KeyCommand::Cancel);
    assert_eq!(command_for_key(ctrl('p')), KeyCommand::MoveUp);
    assert_eq!(command_for_key(ctrl('n')), KeyCommand::MoveDown);
    assert_eq!(command_for_key(ctrl('d')), KeyCommand::DeleteEntry);
    assert_eq!(command_for_key(ctrl('x')), KeyCommand::Type('x'));
    assert_eq!(command_for_key(key(KeyCode::Char('d'))), KeyCommand::Type('d'));
    assert_eq!(command_for_key(key(KeyCode::Backspace)), KeyCommand::DeleteQueryChar);
    assert_eq!(command_for_key(key(KeyCode::Other)), KeyCommand::Ignore);
}

#[test]
fn delete_key_returns_entry_to_write_out() {
    let mut app = app_with(&["one", "two"]);
    handle_key(&mut app, ctrl('n'));

    let removed = handle_key(&mut app, key(KeyCode::Delete));

    let (index, entry) = removed.unwrap();
    assert_eq!(index, 1);
    assert_eq!(entry.command, "two");
    assert_eq!(app.entries.len(), 1);
}

#[test]
fn delete_with_nothing_selected_says_so() {
    let mut app = app_with(&[]);

    assert!(delete_selected(&mut app).is_none());
    assert_eq!(app.status, Some("no command selected".to_string()));
}

#[test]
fn failed_write_puts_entry_back_and_shows_error() {
    let mut app = app_with(&["one", "two", "three"]);
    handle_key(&mut app, key(KeyCode::Down));
    let (index, entry) = handle_key(&mut app, key(KeyCode::Delete)).unwrap();

    finish_delete(&mut app, index, entry, Err("failed to replace /tmp/history".to_string()));

    let commands: Vec<&str> = app.entries.iter().map(|e| e.command.as_str()).collect();
    assert_eq!(commands, vec!["one", "two", "three"]);
    assert_eq!(
        app.status,
        Some("error: failed to replace /tmp/history".to_string())
    );
}

#[test]
fn successful_write_keeps_deletion() {
    let mut app = app_with(&["one", "two"]);
    let (index, entry) = handle_key(&mut app, ctrl('d')).unwrap();

    finish_delete(&mut app, index, entry, Ok(()));

    assert_eq!(app.entries.len(), 1);
    assert_eq!(app.status, Some("deleted selected command".to_string()));
}

#[test]
fn backspace_and_other_keys() {
    let mut app = app_with(&["one"]);
    handle_key(&mut app, key(KeyCode::Char('o')));
    handle_key(&mut app, key(KeyCode::Backspace));
    assert_eq!(app.query, "");

    handle_key(&mut app, key(KeyCode::Other));
    assert_eq!(app.query, "");
    assert!(!app.should_quit);
}
