use hst::app::App;
use hst::history::{HistoryEntry, HistorySource, ShellKind};
use hst::ui::{
    byte_length, highlight_segments, list_rows, lowercase_with_original_offsets, selected_row,
    shows_no_match_message, status_text, Segment,
};

fn parts<'a>(command: &'a str, segments: &[Segment]) -> Vec<(&'a str, bool)> {
    segments
        .iter()
        .map(|s| (&command[s.start..s.end], s.highlighted))
        .collect()
}

fn app_with(commands: &[&str]) -> App {
    let source = HistorySource {
        shell: ShellKind::Bash,
        path: "/tmp/history".to_string(),
    };
    let entries = commands
        .iter()
        .map(|command| HistoryEntry {
            command: command.to_string(),
            raw_line: command.to_string(),
        })
        .collect();
    App::new(source, entries)
}

#[test]
fn command_line_highlights_every_case_insensitive_match() {
    let command = "Git status && git log";
    let segments = highlight_segments(command, "git").unwrap();

    assert_eq!(segments.len(), 4);
    assert_eq!(
        parts(command, &segments),
        vec![("Git", true), (" status && ", false), ("git", true), (" log", false)]
    );
}

#[test]
fn command_line_handles_unicode_before_match() {
    let command = "İ git";
    let segments = highlight_segments(command, "git").unwrap();

    assert_eq!(segments.len(), 2);
    assert_eq!(parts(command, &segments), vec![("İ ", false), ("git", true)]);
}

#[test]
fn command_line_leaves_empty_query_unhighlighted() {
    assert_eq!(highlight_segments("git status", ""), None);
}

#[test]
fn command_without_match_is_one_plain_segment() {
    let command = "ls -la";
    let segments = highlight_segments(command, "git").unwrap();

    assert_eq!(parts(command, &segments), vec![("ls -la", false)]);
}

#[test]
fn matches_do_not_overlap() {
    let command = "aaaa";
    let segments = highlight_segments(command, "aa").unwrap();

    assert_eq!(parts(command, &segments), vec![("aa", true), ("aa", true)]);
}

#[test]
fn offsets_map_lowercased_chars_to_original_bytes() {
    let (lowered, starts, ends) = lowercase_with_original_offsets("İA");

    assert_eq!(lowered, vec!['i', '\u{307}', 'a']);
    assert_eq!(starts, vec![0, 0, 2]);
    assert_eq!(ends, vec![2, 2, 3]);
    assert_eq!(byte_length("İA"), 3);
}

#[test]
fn status_bar_counts_results() {
    let mut app = app_with(&["git status", "cargo test"]);
    assert_eq!(status_text(&app, 2), "bash | 2 results");

    app.query = "git".to_string();
    assert_eq!(status_text(&app, 1), "1 result  (1/2 50%)");

    app.status = Some("deleted selected command".to_string());
    assert_eq!(status_text(&app, 1), "deleted selected command");
}

#[test]
fn status_bar_for_one_zsh_entry() {
    let source = HistorySource {
        shell: ShellKind::Zsh,
        path: "/tmp/h".to_string(),
    };
    let app = App::new(
        source,
        vec![HistoryEntry {
            command: "ls".to_string(),
            raw_line: "ls".to_string(),
        }],
    );

    assert_eq!(status_text(&app, 1), "zsh | 1 result");
}

#[test]
fn list_window_shows_rows_from_scroll_offset() {
    let visible = vec![3, 5, 8, 9, 12];

    assert_eq!(list_rows(&visible, 1, 3), vec![5, 8, 9]);
    assert_eq!(list_rows(&visible, 3, 10), vec![9, 12]);
    assert_eq!(list_rows(&visible, 7, 2), Vec::<usize>::new());
}

#[test]
fn selected_row_is_relative_to_window() {
    assert_eq!(selected_row(4, 2, 5), Some(2));
    assert_eq!(selected_row(1, 3, 5), Some(0));
    assert_eq!(selected_row(5, 0, 5), None);
    assert_eq!(selected_row(0, 0, 0), None);
}

#[test]
fn no_match_message_needs_a_query() {
    assert!(shows_no_match_message(0, "x"));
    assert!(!shows_no_match_message(0, ""));
    assert!(!shows_no_match_message(1, "x"));
}

#[test]
fn segments_cover_the_command_once() {
    for (command, query) in [("Git status && git log", "GIT"), ("xaxbxx", "x"), ("abc", "zz")] {
        let segments = highlight_segments(command, query).unwrap();
        let mut pos = 0;
        for segment in &segments {
            assert_eq!(segment.start, pos);
            assert!(segment.start < segment.end);
            pos = segment.end;
        }
        assert_eq!(pos, command.len());
    }
}
