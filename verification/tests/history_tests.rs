use hst::history::{
    detect_history_source, history_file_contents, home_history_path, infer_shell, is_blank_line,
    parse_history, source_from_path, split_lines, HistoryEntry, HistorySource, ShellKind,
};

fn entry(command: &str, raw_line: &str) -> HistoryEntry {
    HistoryEntry {
        command: command.to_string(),
        raw_line: raw_line.to_string(),
    }
}

#[test]
fn parses_bash_history_lines() {
    let entries = parse_history(ShellKind::Bash, "ls -la\n\ncargo test\n");

    assert_eq!(
        entries,
        vec![
            HistoryEntry {
                command: "ls -la".to_string(),
                raw_line: "ls -la".to_string(),
            },
            HistoryEntry {
                command: "cargo test".to_string(),
                raw_line: "cargo test".to_string(),
            },
        ]
    );
}

#[test]
fn parses_zsh_extended_history_lines() {
    let entries = parse_history(ShellKind::Zsh, ": 1716650000:0;cargo test\nplain command\n");

    assert_eq!(entries[0].command, "cargo test");
    assert_eq!(entries[0].raw_line, ": 1716650000:0;cargo test");
    assert_eq!(entries[1].command, "plain command");
    assert_eq!(entries[1].raw_line, "plain command");
}

#[test]
fn source_from_zhistory_path_infers_zsh() {
    let source = source_from_path("/tmp/.zhistory".to_string(), None, "");

    assert_eq!(source.shell, ShellKind::Zsh);
    assert_eq!(source.path, "/tmp/.zhistory".to_string());
}

#[test]
fn source_from_bash_history_path_infers_bash() {
    let source = source_from_path("/tmp/.bash_history".to_string(), None, "");

    assert_eq!(source.shell, ShellKind::Bash);
    assert_eq!(source.path, "/tmp/.bash_history".to_string());
}

#[test]
fn explicit_shell_hint_overrides_ambiguous_path() {
    let source = source_from_path("/tmp/history".to_string(), Some(ShellKind::Zsh), "");

    assert_eq!(source.shell, ShellKind::Zsh);
    assert_eq!(source.path, "/tmp/history".to_string());
}

#[test]
fn rewritten_contents_hold_remaining_raw_lines() {
    let entries = vec![entry("echo one", "echo one"), entry("cargo test", "cargo test")];

    assert_eq!(history_file_contents(&entries), "echo one\ncargo test\n");
}

#[test]
fn rewritten_contents_of_no_entries_are_empty() {
    assert_eq!(history_file_contents(&[]), "");
}

#[test]
fn written_history_reads_back_unchanged() {
    let entries = vec![
        entry("cargo test", ": 1716650000:0;cargo test"),
        entry("ls", "ls"),
        entry(": odd", ": odd"),
    ];

    let contents = history_file_contents(&entries);

    assert_eq!(parse_history(ShellKind::Zsh, &contents), entries);
}

#[test]
fn zsh_line_with_colon_but_no_semicolon_is_kept_whole() {
    let entries = parse_history(ShellKind::Zsh, ": 123:0 no separator\n:x;y\n");

    assert_eq!(entries[0].command, ": 123:0 no separator");
    assert_eq!(entries[1].command, ":x;y");
}

#[test]
fn bash_keeps_extended_looking_lines_whole() {
    let entries = parse_history(ShellKind::Bash, ": 1:0;ls\n");

    assert_eq!(entries[0].command, ": 1:0;ls");
}

#[test]
fn lines_follow_str_lines() {
    let chars: Vec<char> = "a\r\n\nb\r".chars().collect();
    let lines: Vec<String> = split_lines(&chars).iter().map(|l| l.iter().collect()).collect();

    assert_eq!(lines, "a\r\n\nb\r".lines().collect::<Vec<_>>());
    assert_eq!(lines, vec!["a", "", "b\r"]);
}

#[test]
fn whitespace_only_lines_are_skipped() {
    let entries = parse_history(ShellKind::Bash, "  \t\n\u{3000}\nls\r\n");

    assert_eq!(entries, vec![entry("ls", "ls")]);
}

#[test]
fn blank_line_uses_unicode_whitespace() {
    let blank: Vec<char> = " \u{a0}\u{2003}".chars().collect();
    let not_blank: Vec<char> = " x ".chars().collect();

    assert!(is_blank_line(&blank));
    assert!(!is_blank_line(&not_blank));
    assert!(is_blank_line(&[]));
}

#[test]
fn shell_is_inferred_from_name_then_login_shell() {
    assert_eq!(infer_shell(".ZSH_HISTORY", ""), ShellKind::Zsh);
    assert_eq!(infer_shell("my_bash_log", "/usr/bin/zsh"), ShellKind::Bash);
    assert_eq!(infer_shell("history", "/usr/bin/zsh"), ShellKind::Zsh);
    assert_eq!(infer_shell("history", "/bin/bash"), ShellKind::Bash);
    assert_eq!(infer_shell("", ""), ShellKind::Bash);
}

#[test]
fn path_without_file_name_uses_login_shell() {
    let source = source_from_path("/".to_string(), None, "/bin/zsh");

    assert_eq!(source.shell, ShellKind::Zsh);
}

#[test]
fn home_history_path_joins_with_one_slash() {
    assert_eq!(home_history_path("/home/me", ShellKind::Zsh), "/home/me/.zsh_history");
    assert_eq!(home_history_path("/home/me/", ShellKind::Bash), "/home/me/.bash_history");
    assert_eq!(home_history_path("", ShellKind::Bash), ".bash_history");
}

#[test]
fn histfile_takes_precedence() {
    let source = detect_history_source(
        Some("/data/.zhistory".to_string()),
        Some("/home/me".to_string()),
        "/bin/bash",
        false,
        false,
    );

    assert_eq!(
        source,
        Ok(HistorySource {
            shell: ShellKind::Zsh,
            path: "/data/.zhistory".to_string(),
        })
    );
}

#[test]
fn empty_histfile_is_ignored() {
    let source = detect_history_source(
        Some(String::new()),
        Some("/home/me".to_string()),
        "/bin/bash",
        false,
        false,
    );

    assert_eq!(
        source,
        Ok(HistorySource {
            shell: ShellKind::Bash,
            path: "/home/me/.bash_history".to_string(),
        })
    );
}

#[test]
fn login_shell_picks_home_file() {
    let source = detect_history_source(None, Some("/home/me".to_string()), "/usr/bin/zsh", false, true);

    assert_eq!(
        source,
        Ok(HistorySource {
            shell: ShellKind::Zsh,
            path: "/home/me/.zsh_history".to_string(),
        })
    );
}

#[test]
fn existing_files_decide_when_login_shell_is_unknown() {
    let zsh = detect_history_source(None, Some("/h".to_string()), "/bin/fish", true, true);
    let bash = detect_history_source(None, Some("/h".to_string()), "/bin/fish", false, true);

    assert_eq!(zsh.unwrap().path, "/h/.zsh_history");
    assert_eq!(bash.unwrap().path, "/h/.bash_history");
}

#[test]
fn detection_errors_are_reported() {
    assert_eq!(
        detect_history_source(None, None, "/bin/zsh", true, true),
        Err("could not find home directory".to_string())
    );
    assert_eq!(
        detect_history_source(None, Some("/h".to_string()), "", false, false),
        Err("could not detect Bash or Zsh history file; set HISTFILE to a history path".to_string())
    );
}

#[test]
fn only_the_file_name_decides_the_shell() {
    let source = source_from_path("/home/zsh_user/history".to_string(), None, "");

    assert_eq!(source.shell, ShellKind::Bash);
}

#[test]
fn parsed_entries_come_from_non_blank_lines() {
    let contents = "ls\n \n: 1:0;git log\r\n\nlast";
    let entries = parse_history(ShellKind::Zsh, contents);

    assert_eq!(
        entries,
        vec![entry("ls", "ls"), entry("git log", ": 1:0;git log"), entry("last", "last")]
    );
    for e in &entries {
        assert!(!e.raw_line.contains('\n'));
        assert!(!e.raw_line.trim().is_empty());
    }
}
