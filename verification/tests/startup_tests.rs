use hst::app::App;
use hst::cli::{Cli, Shell};
use hst::history::{HistorySource, ShellKind};
use hst::startup::{
    accepted_command_output, parse_cursor_report, startup_action, StartupAction, VIEWPORT_HEIGHT,
};

#[test]
fn shell_arg_prints_hook_without_tui() {
    let action = startup_action(
        Cli {
            shell: Some(Shell::Bash),
            history_file: None,
        },
        "",
    );

    match action {
        StartupAction::PrintHook(hook) => assert!(hook.contains("bind -x")),
        StartupAction::RunTui(_) => panic!("expected hook output"),
    }
}

#[test]
fn history_file_arg_launches_tui_with_custom_source() {
    let path = "/tmp/.zhistory".to_string();
    let action = startup_action(
        Cli {
            shell: None,
            history_file: Some(path.clone()),
        },
        "",
    );

    assert_eq!(
        action,
        StartupAction::RunTui(Some(HistorySource {
            shell: ShellKind::Zsh,
            path,
        }))
    );
}

#[test]
fn no_args_launches_tui_with_auto_detected_source() {
    let action = startup_action(
        Cli {
            shell: None,
            history_file: None,
        },
        "",
    );

    assert_eq!(action, StartupAction::RunTui(None));
}

#[test]
fn accepted_command_output_returns_selected_command() {
    let source = HistorySource {
        shell: ShellKind::Bash,
        path: "/tmp/history".to_string(),
    };
    let mut app = App::new(source, Vec::new());
    app.accepted_command = Some("git status".to_string());

    assert_eq!(accepted_command_output(&app), Some("git status"));
}

#[test]
fn viewport_height_is_10() {
    assert_eq!(VIEWPORT_HEIGHT, 10);
}

#[test]
fn shell_with_history_file_prints_hook_for_that_file() {
    let action = startup_action(
        Cli {
            shell: Some(Shell::Zsh),
            history_file: Some("/h/x".to_string()),
        },
        "",
    );

    match action {
        StartupAction::PrintHook(hook) => assert!(hook.contains("hst --history-file '/h/x'")),
        StartupAction::RunTui(_) => panic!("expected hook output"),
    }
}

#[test]
fn no_accepted_command_prints_nothing() {
    let source = HistorySource {
        shell: ShellKind::Bash,
        path: "/tmp/history".to_string(),
    };
    let app = App::new(source, Vec::new());

    assert_eq!(accepted_command_output(&app), None);
}

#[test]
fn cursor_report_gives_row() {
    assert_eq!(parse_cursor_report(b"\x1b[12;40R"), Some((0, 12)));
    assert_eq!(parse_cursor_report(b"\x1b[7R"), Some((0, 7)));
    assert_eq!(parse_cursor_report(b"\x1b[+7;1R"), Some((0, 7)));
}

#[test]
fn malformed_cursor_reports_are_rejected() {
    assert_eq!(parse_cursor_report(b""), None);
    assert_eq!(parse_cursor_report(b"\x1b[R"), None);
    assert_eq!(parse_cursor_report(b"\x1b[12;40"), None);
    assert_eq!(parse_cursor_report(b"[12;40R"), None);
    assert_eq!(parse_cursor_report(b"\x1b[70000;1R"), None);
    assert_eq!(parse_cursor_report(b"\x1b[-1;1R"), None);
    assert_eq!(parse_cursor_report(b"\x1b[\xff;1R"), None);
}
