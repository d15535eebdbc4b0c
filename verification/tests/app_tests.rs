use hst::app::App;
use hst::history::{HistoryEntry, HistorySource, ShellKind};

fn app_with(commands: &[&str]) -> App {
    let source = HistorySource {
        shell: ShellKind::Bash,
        path: "/tmp/history".to_string(),
    };
    let entries = commands
        .iter()
        .map(|command| HistoryEntry {
            command: command.to_string(),
            raw_line: command.to_string(),
        })
        .collect();
    App::new(source, entries)
}

fn commands(app: &App) -> Vec<&str> {
    app.entries.iter().map(|entry| entry.command.as_str()).collect()
}

#[test]
fn filters_commands_case_insensitively() {
    let mut app = app_with(&["ls", "Cargo Test", "git status"]);

    app.query = "cargo".to_string();

    let indices = app.visible_indices();
    assert_eq!(indices, vec![1]);
}

#[test]
fn movement_is_clamped_to_visible_entries() {
    let mut app = app_with(&["one", "two"]);

    app.move_down();
    app.move_down();
    app.move_up();

    assert_eq!(app.selected, 0);
}

#[test]
fn delete_selected_removes_visible_entry() {
    let mut app = app_with(&["one", "two", "three"]);
    app.query = "two".to_string();

    let removed = app.delete_selected().unwrap();

    assert_eq!(removed.0, 1);
    assert_eq!(removed.1.command, "two");
    assert_eq!(commands(&app), vec!["one", "three"]);
}

#[test]
fn accept_selected_stores_command_and_quits() {
    let mut app = app_with(&["one", "two"]);
    app.move_down();

    app.accept_selected();

    assert_eq!(app.accepted_command, Some("two".to_string()));
    assert!(app.should_quit);
}

#[test]
fn cancel_quits_without_command() {
    let mut app = app_with(&["one"]);

    app.cancel();

    assert_eq!(app.accepted_command, None);
    assert!(app.should_quit);
}

#[test]
fn scroll_offset_advances_when_selection_exceeds_viewport() {
    let mut app = app_with(&["a", "b", "c", "d", "e"]);
    app.set_viewport_height(3);

    for _ in 0..4 {
        app.move_down();
    }

    assert_eq!(app.selected, 4);
    assert_eq!(app.scroll_offset, 2);
}

#[test]
fn scroll_offset_retreats_when_selection_moves_above() {
    let mut app = app_with(&["a", "b", "c", "d", "e"]);
    app.set_viewport_height(3);

    for _ in 0..4 {
        app.move_down();
    }
    for _ in 0..3 {
        app.move_up();
    }

    assert_eq!(app.selected, 1);
    assert_eq!(app.scroll_offset, 1);
}

#[test]
fn scroll_offset_stays_zero_when_selection_visible() {
    let mut app = app_with(&["a", "b", "c", "d", "e"]);
    app.set_viewport_height(3);

    app.move_down();

    assert_eq!(app.selected, 1);
    assert_eq!(app.scroll_offset, 0);
}

#[test]
fn push_search_char_resets_scroll_offset() {
    let mut app = app_with(&["a", "b", "c", "d", "e"]);
    app.set_viewport_height(2);

    for _ in 0..4 {
        app.move_down();
    }
    assert_eq!(app.scroll_offset, 3);

    app.push_search_char('a');

    assert_eq!(app.selected, 0);
    assert_eq!(app.scroll_offset, 0);
}

#[test]
fn pop_search_char_resets_scroll_offset() {
    let mut app = app_with(&["ax", "bx", "cx", "dx", "ex"]);
    app.set_viewport_height(2);
    app.query = "x".to_string();

    for _ in 0..4 {
        app.move_down();
    }
    assert_eq!(app.scroll_offset, 3);

    app.pop_search_char();

    assert_eq!(app.selected, 0);
    assert_eq!(app.scroll_offset, 0);
}

#[test]
fn delete_resets_scroll_offset_when_empty() {
    let mut app = app_with(&["only"]);
    app.set_viewport_height(3);

    app.delete_selected();

    assert_eq!(app.selected, 0);
    assert_eq!(app.scroll_offset, 0);
}

#[test]
fn new_app_starts_at_top_with_ten_rows() {
    let app = app_with(&["a", "b"]);

    assert_eq!(app.query, "");
    assert_eq!(app.selected, 0);
    assert_eq!(app.scroll_offset, 0);
    assert_eq!(app.viewport_height, 10);
    assert_eq!(app.status, None);
    assert!(!app.should_quit);
}

#[test]
fn empty_query_shows_every_entry_in_order() {
    let app = app_with(&["a", "b", "c"]);

    assert_eq!(app.visible_indices(), vec![0, 1, 2]);
}

#[test]
fn filter_lowercases_unicode_query_and_commands() {
    let mut app = app_with(&["ÉCHO hi", "echo", "Straße"]);

    app.query = "éc".to_string();
    assert_eq!(app.visible_indices(), vec![0]);

    app.query = "STRASSE".to_string();
    assert_eq!(app.visible_indices(), Vec::<usize>::new());

    app.query = "STRAßE".to_string();
    assert_eq!(app.visible_indices(), vec![2]);
}

#[test]
fn zero_viewport_height_is_ignored() {
    let mut app = app_with(&["a"]);

    app.set_viewport_height(0);
    assert_eq!(app.viewport_height, 10);

    app.set_viewport_height(4);
    assert_eq!(app.viewport_height, 4);
}

#[test]
fn selected_entry_index_follows_the_filter() {
    let mut app = app_with(&["ls", "git log", "git status"]);
    app.query = "git".to_string();
    app.move_down();

    assert_eq!(app.selected_entry_index(), Some(2));

    app.query = "nothing".to_string();
    assert_eq!(app.selected_entry_index(), None);
}

#[test]
fn move_up_at_top_stays_at_top_and_clears_status() {
    let mut app = app_with(&["a", "b"]);
    app.status = Some("old".to_string());

    app.move_up();

    assert_eq!(app.selected, 0);
    assert_eq!(app.status, None);
}

#[test]
fn accept_with_nothing_visible_quits_without_command() {
    let mut app = app_with(&["a", "b"]);
    app.query = "zzz".to_string();

    app.accept_selected();

    assert_eq!(app.accepted_command, None);
    assert!(app.should_quit);
}

#[test]
fn delete_with_nothing_visible_changes_nothing() {
    let mut app = app_with(&["a", "b"]);
    app.query = "zzz".to_string();

    assert_eq!(app.delete_selected(), None);
    assert_eq!(commands(&app), vec!["a", "b"]);
    assert_eq!(app.status, None);
}

#[test]
fn delete_sets_status_and_keeps_selection_on_last_entry() {
    let mut app = app_with(&["a", "b", "c"]);
    app.move_down();
    app.move_down();

    let removed = app.delete_selected().unwrap();

    assert_eq!(removed.0, 2);
    assert_eq!(app.selected, 1);
    assert_eq!(app.status, Some("deleted selected command".to_string()));
}

#[test]
fn restore_entry_undoes_delete() {
    let mut app = app_with(&["one", "two", "three"]);
    app.move_down();

    let (index, entry) = app.delete_selected().unwrap();
    app.restore_entry(index, entry);

    assert_eq!(commands(&app), vec!["one", "two", "three"]);
}

#[test]
fn restore_entry_past_the_end_appends() {
    let mut app = app_with(&["one"]);
    let entry = HistoryEntry {
        command: "two".to_string(),
        raw_line: "two".to_string(),
    };

    app.restore_entry(7, entry);

    assert_eq!(commands(&app), vec!["one", "two"]);
}

#[test]
fn set_error_prefixes_message() {
    let mut app = app_with(&["one"]);

    app.set_error("disk full");

    assert_eq!(app.status, Some("error: disk full".to_string()));
}

#[test]
fn push_and_pop_edit_the_query() {
    let mut app = app_with(&["one"]);

    app.push_search_char('o');
    app.push_search_char('n');
    assert_eq!(app.query, "on");

    app.pop_search_char();
    assert_eq!(app.query, "o");
    app.pop_search_char();
    app.pop_search_char();
    assert_eq!(app.query, "");
}

#[test]
fn matches_lowered_needs_the_query_inside_the_command() {
    let command: Vec<char> = "git status".chars().collect();
    let query: Vec<char> = "stat".chars().collect();
    let other: Vec<char> = "stash".chars().collect();

    assert!(hst::app::matches_lowered(&command, &query));
    assert!(!hst::app::matches_lowered(&command, &other));
    assert!(hst::app::matches_lowered(&command, &[]));
}

#[test]
fn typing_then_backspace_restores_query() {
    let mut app = app_with(&["one", "two"]);
    app.query = "tw".to_string();

    app.push_search_char('x');
    app.pop_search_char();

    assert_eq!(app.query, "tw");
    assert_eq!(app.visible_indices(), vec![1]);
}

#[test]
fn selection_stays_on_screen_while_moving() {
    let mut app = app_with(&["a", "b", "c", "d", "e", "f", "g"]);
    app.set_viewport_height(2);

    for _ in 0..10 {
        app.move_down();
        assert!(app.scroll_offset <= app.selected);
        assert!(app.selected < app.scroll_offset + 2);
    }
    assert_eq!(app.selected, 6);
    for _ in 0..10 {
        app.move_up();
        assert!(app.scroll_offset <= app.selected);
        assert!(app.selected < app.scroll_offset + 2);
    }
    assert_eq!(app.selected, 0);
}
