use hst::cli::{render_hook, Shell};

#[test]
fn bash_hook_inserts_selected_command_into_readline() {
    let hook = render_hook(Shell::Bash, Some("~/.bash_history".to_string()));

    assert!(hook.contains("selected=\"$(hst --history-file"));
    assert!(hook.contains("READLINE_LINE=\"$selected\""));
    assert!(hook.contains("READLINE_POINT=\"${#READLINE_LINE}\""));
}

#[test]
fn zsh_hook_inserts_selected_command_into_lbuffer() {
    let hook = render_hook(Shell::Zsh, Some("~/.zhistory".to_string()));

    assert!(hook.contains("selected=\"$(hst --history-file"));
    assert!(hook.contains("LBUFFER=\"$selected\""));
    assert!(hook.contains("zle reset-prompt"));
}

#[test]
fn bash_hook_is_complete() {
    let hook = render_hook(Shell::Bash, None);

    assert_eq!(
        hook,
        "__hst_rust_ctrl_r() {\n  local selected\n  selected=\"$(hst --history-file \"${HISTFILE:-$HOME/.bash_history}\")\"\n  if [[ -n \"$selected\" ]]; then\n    READLINE_LINE=\"$selected\"\n    READLINE_POINT=\"${#READLINE_LINE}\"\n  fi\n}\nbind -x '\"\\C-r\": __hst_rust_ctrl_r'\n"
    );
}

#[test]
fn zsh_hook_is_complete() {
    let hook = render_hook(Shell::Zsh, None);

    assert_eq!(
        hook,
        "__hst_rust_ctrl_r() {\n  local selected\n  selected=\"$(hst --history-file \"${HISTFILE:-$HOME/.zsh_history}\")\"\n  if [[ -n \"$selected\" ]]; then\n    LBUFFER=\"$selected\"\n  fi\n  zle reset-prompt\n}\nzle -N __hst_rust_ctrl_r\nbindkey '^R' __hst_rust_ctrl_r\n"
    );
}

#[test]
fn home_path_is_double_quoted_and_escaped() {
    let hook = render_hook(Shell::Bash, Some("~/a \"b\" $c`d\\".to_string()));

    assert!(hook.contains("hst --history-file \"$HOME/a \\\"b\\\" \\$c\\`d\\\\\")\""));
}

#[test]
fn bare_tilde_becomes_home() {
    let hook = render_hook(Shell::Zsh, Some("~".to_string()));

    assert!(hook.contains("hst --history-file $HOME)"));
}

#[test]
fn other_paths_are_single_quoted() {
    let hook = render_hook(Shell::Bash, Some("/tmp/it's here".to_string()));

    assert!(hook.contains("hst --history-file '/tmp/it'\\''s here')"));
}
