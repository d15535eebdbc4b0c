//! What the program does on start, and what it prints at the end.
use vstd::prelude::*;
use crate::app::App;
use crate::cli::{hook_text, render_hook, Cli};
use crate::text::{chars_of, first_occurrence, find_from, lemma_first_occurrence, parse_u16, parsed_u16};
use vstd::utf8::{decode_utf8, valid_utf8};
use crate::history::{
    file_name_or_empty, inferred_shell, opt_view, source_from_path, HistorySource,
};

verus! {

/// The number of terminal rows the picker takes.
pub const VIEWPORT_HEIGHT: u16 = 10;

/// What to do on start: print a hook, or run the picker on a given history
/// source (or on the one found from the environment, when there is none).
#[derive(Debug, PartialEq, Eq)]
pub enum StartupAction {
    PrintHook(String),
    RunTui(Option<HistorySource>),
}

/// With a shell, print its hook; otherwise run the picker, on the given
/// history file when there is one. `login_shell` is `$SHELL` (empty when
/// unset), used to judge the format of a file whose name tells nothing.
pub fn startup_action(cli: Cli, login_shell: &str) -> (action: StartupAction)
    ensures
        match cli.shell {
            Some(shell) => action matches StartupAction::PrintHook(hook) && hook@ == hook_text(
                shell,
                opt_view(cli.history_file),
            ),
            None => match cli.history_file {
                Some(path) => action matches StartupAction::RunTui(Some(source)) && source.path@
                    == path@ && source.shell == inferred_shell(
                    file_name_or_empty(path@),
                    login_shell@,
                ),
                None => action matches StartupAction::RunTui(None),
            },
        },
{
    if let Some(shell) = cli.shell {
        return StartupAction::PrintHook(render_hook(shell, cli.history_file));
    }
    match cli.history_file {
        Some(path) => StartupAction::RunTui(Some(source_from_path(path, None, login_shell))),
        None => StartupAction::RunTui(None),
    }
}

/// The command to print when the picker ends: the accepted one, if any.
pub fn accepted_command_output(app: &App) -> (output: Option<&str>)
    ensures
        match app.accepted_command {
            Some(command) => output matches Some(text) && text@ == command@,
            None => output is None,
        },
{
    match &app.accepted_command {
        Some(command) => Some(command.as_str()),
        None => None,
    }
}

/// Calls `std::str::from_utf8`: the text of the bytes when they are valid
/// UTF-8, nothing otherwise.
#[verifier::external_body]
fn utf8_text(bytes: &[u8]) -> (text: Option<String>)
    ensures
        text is Some <==> valid_utf8(bytes@),
        text matches Some(t) ==> t@ == decode_utf8(bytes@),
{
    std::str::from_utf8(bytes).ok().map(|t| t.to_string())
}

/// The row in a terminal's cursor position report `ESC [ row ; col R`: the
/// text between `ESC [` and the final `R`, up to the first `;`, read as a
/// 16-bit number.
pub open spec fn report_row(text: Seq<char>) -> Option<u16> {
    if text.len() >= 3 && text[0] == '\x1b' && text[1] == '[' && text.last() == 'R' {
        let body = text.subrange(2, text.len() - 1);
        let field = match first_occurrence(body, seq![';'], 0) {
            Some(k) => body.take(k),
            None => body,
        };
        parsed_u16(field)
    } else {
        None
    }
}

/// The cursor position to draw the picker at, from the terminal's reply to
/// a cursor position request: column 0 and the reported row, or nothing when
/// the reply is not a valid report.
pub fn parse_cursor_report(report: &[u8]) -> (position: Option<(u16, u16)>)
    ensures
        position == if valid_utf8(report@) {
            match report_row(decode_utf8(report@)) {
                Some(row) => Some((0u16, row)),
                None => None::<(u16, u16)>,
            }
        } else {
            None::<(u16, u16)>
        },
{
    let text = match utf8_text(report) {
        Some(text) => text,
        None => return None,
    };
    let chars = chars_of(text.as_str());
    let n = chars.len();
    if !(n >= 3 && chars[0] == '\x1b' && chars[1] == '[' && chars[n - 1] == 'R') {
        return None;
    }
    let mut body: Vec<char> = Vec::new();
    let mut i: usize = 2;
    while i < n - 1
        invariant
            n == chars@.len(),
            n >= 3,
            2 <= i <= n - 1,
            body@ == chars@.subrange(2, i as int),
        decreases n - 1 - i,
    {
        body.push(chars[i]);
        i = i + 1;
        assert(body@ =~= chars@.subrange(2, i as int));
    }
    let semicolon = vec![';'];
    assert(semicolon@ =~= seq![';']);
    proof {
        lemma_first_occurrence(body@, seq![';'], 0);
    }
    let field = match find_from(body.as_slice(), semicolon.as_slice(), 0) {
        Some(k) => {
            let mut field: Vec<char> = Vec::new();
            let mut j: usize = 0;
            while j < k
                invariant
                    j <= k <= body@.len(),
                    field@ == body@.take(j as int),
                decreases k - j,
            {
                field.push(body[j]);
                j = j + 1;
                assert(field@ =~= body@.take(j as int));
            }
            field
        },
        None => body,
    };
    match parse_u16(field.as_slice()) {
        Some(row) => Some((0, row)),
        None => None,
    }
}

} // verus!
