//! Command-line options and the shell hooks that bind the picker to Ctrl-R.
use vstd::prelude::*;
use vstd::string::*;
use crate::history::opt_view;
use crate::text::chars_of;

verus! {

/// The shells a hook can be printed for.
#[derive(Clone, Copy, Debug, PartialEq, Eq, Structural)]
pub enum Shell {
    Bash,
    Zsh,
}

/// The command-line options: the history file to use, and the shell to
/// print a hook for.
#[derive(Clone, Debug, PartialEq, Eq)]
pub struct Cli {
    pub history_file: Option<String>,
    pub shell: Option<Shell>,
}

/// A character that is special inside double quotes.
pub open spec fn special_in_double_quotes(c: char) -> bool {
    c == '\\' || c == '"' || c == '$' || c == '`'
}

/// The escaped form of one character inside double quotes.
pub open spec fn double_quote_piece(c: char) -> Seq<char> {
    if special_in_double_quotes(c) {
        seq!['\\', c]
    } else {
        seq![c]
    }
}

/// Text escaped for double quotes: a backslash before each of `\ " $ ``.
pub open spec fn double_quote_escaped(s: Seq<char>) -> Seq<char>
    decreases s.len(),
{
    if s.len() == 0 {
        seq![]
    } else {
        double_quote_piece(s[0]) + double_quote_escaped(s.drop_first())
    }
}

/// The single-quoted form of one character: `'` becomes `'\''`.
pub open spec fn single_quote_piece(c: char) -> Seq<char> {
    if c == '\'' {
        seq!['\'', '\\', '\'', '\'']
    } else {
        seq![c]
    }
}

/// The inside of a single-quoted word: each `'` becomes `'\''`.
pub open spec fn single_quote_body(s: Seq<char>) -> Seq<char>
    decreases s.len(),
{
    if s.len() == 0 {
        seq![]
    } else {
        single_quote_piece(s[0]) + single_quote_body(s.drop_first())
    }
}

/// Escaping one more character appends its escaped form.
pub proof fn lemma_double_quote_escaped_push(s: Seq<char>, c: char)
    ensures
        double_quote_escaped(s.push(c)) == double_quote_escaped(s) + double_quote_piece(c),
    decreases s.len(),
{
    if s.len() == 0 {
        assert(s.push(c).drop_first() =~= seq![]);
        assert(double_quote_escaped(s.push(c).drop_first()) == Seq::<char>::empty());
        assert(double_quote_escaped(s.push(c)) =~= double_quote_piece(c));
    } else {
        lemma_double_quote_escaped_push(s.drop_first(), c);
        assert(s.push(c).drop_first() =~= s.drop_first().push(c));
        assert(double_quote_escaped(s.push(c)) =~= double_quote_escaped(s) + double_quote_piece(
            c,
        ));
    }
}

/// Quoting one more character appends its single-quoted form.
pub proof fn lemma_single_quote_body_push(s: Seq<char>, c: char)
    ensures
        single_quote_body(s.push(c)) == single_quote_body(s) + single_quote_piece(c),
    decreases s.len(),
{
    if s.len() == 0 {
        assert(s.push(c).drop_first() =~= seq![]);
        assert(single_quote_body(s.push(c).drop_first()) == Seq::<char>::empty());
        assert(single_quote_body(s.push(c)) =~= single_quote_piece(c));
    } else {
        lemma_single_quote_body_push(s.drop_first(), c);
        assert(s.push(c).drop_first() =~= s.drop_first().push(c));
        assert(single_quote_body(s.push(c)) =~= single_quote_body(s) + single_quote_piece(c));
    }
}

/// Text as one single-quoted shell word.
pub open spec fn single_quoted(s: Seq<char>) -> Seq<char> {
    seq!['\''] + single_quote_body(s) + seq!['\'']
}

/// A path as a shell word: `~` becomes `$HOME`, a path under `~/` is
/// double-quoted after `$HOME/`, any other path is single-quoted.
pub open spec fn quoted_path(path: Seq<char>) -> Seq<char> {
    if path == seq!['~'] {
        "$HOME"@
    } else if path.len() >= 2 && path[0] == '~' && path[1] == '/' {
        "\"$HOME/"@ + double_quote_escaped(path.skip(2)) + "\""@
    } else {
        single_quoted(path)
    }
}

/// The history file argument of the picker command: the quoted path, or
/// the shell's usual file under `$HISTFILE` or `$HOME`.
pub open spec fn history_file_argument(shell: Shell, history_file: Option<Seq<char>>) -> Seq<
    char,
> {
    match history_file {
        Some(path) => quoted_path(path),
        None => match shell {
            Shell::Bash => "\"${HISTFILE:-$HOME/.bash_history}\""@,
            Shell::Zsh => "\"${HISTFILE:-$HOME/.zsh_history}\""@,
        },
    }
}

/// The command that the hook runs to pick a command.
pub open spec fn picker_command(shell: Shell, history_file: Option<Seq<char>>) -> Seq<char> {
    "hst --history-file "@ + history_file_argument(shell, history_file)
}

/// The start of every hook, up to the picker command.
pub open spec fn hook_head() -> Seq<char> {
    "__hst_rust_ctrl_r() {\n  local selected\n  selected=\"$("@
}

/// The rest of a hook after the picker command: bash puts the pick into the
/// readline buffer and binds `\C-r`; zsh puts it into `LBUFFER` and binds
/// `^R` through a widget.
pub open spec fn hook_tail(shell: Shell) -> Seq<char> {
    match shell {
        Shell::Bash => ")\"\n  if [[ -n \"$selected\" ]]; then\n    READLINE_LINE=\"$selected\"\n    READLINE_POINT=\"${#READLINE_LINE}\"\n  fi\n}\nbind -x '\"\\C-r\": __hst_rust_ctrl_r'\n"@,
        Shell::Zsh => ")\"\n  if [[ -n \"$selected\" ]]; then\n    LBUFFER=\"$selected\"\n  fi\n  zle reset-prompt\n}\nzle -N __hst_rust_ctrl_r\nbindkey '^R' __hst_rust_ctrl_r\n"@,
    }
}

/// The hook for a shell.
pub open spec fn hook_text(shell: Shell, history_file: Option<Seq<char>>) -> Seq<char> {
    hook_head() + picker_command(shell, history_file) + hook_tail(shell)
}

/// Text escaped for double quotes.
fn escape_double_quoted(value: &[char]) -> (escaped: String)
    ensures
        escaped@ == double_quote_escaped(value@),
{
    let mut escaped = String::new();
    let mut i: usize = 0;
    while i < value.len()
        invariant
            i <= value@.len(),
            escaped@ == double_quote_escaped(value@.take(i as int)),
        decreases value@.len() - i,
    {
        let c = value[i];
        proof {
            lemma_double_quote_escaped_push(value@.take(i as int), c);
            assert(value@.take(i as int).push(c) =~= value@.take(i + 1));
        }
        if c == '\\' || c == '"' || c == '$' || c == '`' {
            escaped.push('\\');
        }
        escaped.push(c);
        i = i + 1;
        assert(escaped@ =~= double_quote_escaped(value@.take(i as int)));
    }
    assert(value@.take(value@.len() as int) =~= value@);
    escaped
}

/// Text as one single-quoted shell word.
fn shell_single_quote(value: &[char]) -> (quoted: String)
    ensures
        quoted@ == single_quoted(value@),
{
    let mut quoted = String::new();
    quoted.push('\'');
    let mut i: usize = 0;
    while i < value.len()
        invariant
            i <= value@.len(),
            quoted@ == seq!['\''] + single_quote_body(value@.take(i as int)),
        decreases value@.len() - i,
    {
        let c = value[i];
        proof {
            lemma_single_quote_body_push(value@.take(i as int), c);
            assert(value@.take(i as int).push(c) =~= value@.take(i + 1));
        }
        if c == '\'' {
            quoted.push('\'');
            quoted.push('\\');
            quoted.push('\'');
            quoted.push('\'');
        } else {
            quoted.push(c);
        }
        i = i + 1;
        assert(quoted@ =~= seq!['\''] + single_quote_body(value@.take(i as int)));
    }
    assert(value@.take(value@.len() as int) =~= value@);
    quoted.push('\'');
    quoted
}

/// A path as a shell word.
fn quote_path(path: &str) -> (quoted: String)
    ensures
        quoted@ == quoted_path(path@),
{
    let value = chars_of(path);
    if value.len() == 1 && value[0] == '~' {
        assert(value@ =~= seq!['~']);
        return String::from_str("$HOME");
    }
    if value.len() >= 2 && value[0] == '~' && value[1] == '/' {
        assert(value@ != seq!['~']);
        let mut rest: Vec<char> = Vec::new();
        let mut i: usize = 2;
        while i < value.len()
            invariant
                2 <= i <= value@.len(),
                rest@ == value@.subrange(2, i as int),
            decreases value@.len() - i,
        {
            rest.push(value[i]);
            i = i + 1;
            assert(rest@ =~= value@.subrange(2, i as int));
        }
        assert(rest@ =~= value@.skip(2));
        let mut quoted = String::from_str("\"$HOME/");
        quoted.append(escape_double_quoted(rest.as_slice()).as_str());
        quoted.append("\"");
        return quoted;
    }
    assert(value@ != seq!['~']) by {
        if value@ == seq!['~'] {
            assert(value@.len() == 1 && value@[0] == '~');
        }
    }
    shell_single_quote(value.as_slice())
}

/// The command that the hook runs to pick a command.
fn render_command(shell: Shell, history_file: Option<&str>) -> (command: String)
    ensures
        command@ == picker_command(
            shell,
            match history_file {
                Some(p) => Some(p@),
                None => None,
            },
        ),
{
    let argument = match (shell, history_file) {
        (_, Some(path)) => quote_path(path),
        (Shell::Bash, None) => String::from_str("\"${HISTFILE:-$HOME/.bash_history}\""),
        (Shell::Zsh, None) => String::from_str("\"${HISTFILE:-$HOME/.zsh_history}\""),
    };
    let mut command = String::from_str("hst --history-file ");
    command.append(argument.as_str());
    command
}

/// The shell code that binds Ctrl-R to the picker and puts the picked
/// command on the command line.
pub fn render_hook(shell: Shell, history_file: Option<String>) -> (hook: String)
    ensures
        hook@ == hook_text(shell, opt_view(history_file)),
{
    let command = match &history_file {
        Some(path) => render_command(shell, Some(path.as_str())),
        None => render_command(shell, None),
    };
    let mut hook = String::from_str("__hst_rust_ctrl_r() {\n  local selected\n  selected=\"$(");
    hook.append(command.as_str());
    match shell {
        Shell::Bash => hook.append(
            ")\"\n  if [[ -n \"$selected\" ]]; then\n    READLINE_LINE=\"$selected\"\n    READLINE_POINT=\"${#READLINE_LINE}\"\n  fi\n}\nbind -x '\"\\C-r\": __hst_rust_ctrl_r'\n",
        ),
        Shell::Zsh => hook.append(
            ")\"\n  if [[ -n \"$selected\" ]]; then\n    LBUFFER=\"$selected\"\n  fi\n  zle reset-prompt\n}\nzle -N __hst_rust_ctrl_r\nbindkey '^R' __hst_rust_ctrl_r\n",
        ),
    }
    hook
}

/// How a POSIX shell reads a word made only of single-quoted runs and
/// backslash escapes, after the characters read so far (`acc`): a `'` opens
/// a single-quoted run, `\` makes the next character literal. Nothing when
/// a run is left open, a backslash ends the word, or another unquoted
/// character (one that the shell might expand or split on) appears.
pub open spec fn read_quoted_word(w: Seq<char>, acc: Seq<char>) -> Option<Seq<char>>
    decreases w.len(),
{
    if w.len() == 0 {
        Some(acc)
    } else if w[0] == '\'' {
        read_single_quoted_run(w.drop_first(), acc)
    } else if w[0] == '\\' && w.len() >= 2 {
        read_quoted_word(w.skip(2), acc.push(w[1]))
    } else {
        None
    }
}

/// Inside a single-quoted run every character is literal up to the next
/// `'`, after which the word goes on.
pub open spec fn read_single_quoted_run(w: Seq<char>, acc: Seq<char>) -> Option<Seq<char>>
    decreases w.len(),
{
    if w.len() == 0 {
        None
    } else if w[0] == '\'' {
        read_quoted_word(w.drop_first(), acc)
    } else {
        read_single_quoted_run(w.drop_first(), acc.push(w[0]))
    }
}

/// How a POSIX shell reads text inside double quotes when nothing in it is
/// expanded: `\` before one of `\ " $ `` gives that character, before any
/// other character stays; nothing when an unescaped `" $ `` appears (the
/// quotes would end, or an expansion begin) or a backslash ends the text.
pub open spec fn read_double_quoted_text(w: Seq<char>) -> Option<Seq<char>>
    decreases w.len(),
{
    if w.len() == 0 {
        Some(seq![])
    } else if w[0] == '\\' {
        if w.len() >= 2 && special_in_double_quotes(w[1]) {
            match read_double_quoted_text(w.skip(2)) {
                Some(rest) => Some(seq![w[1]] + rest),
                None => None,
            }
        } else if w.len() >= 2 {
            match read_double_quoted_text(w.drop_first()) {
                Some(rest) => Some(seq!['\\'] + rest),
                None => None,
            }
        } else {
            None
        }
    } else if special_in_double_quotes(w[0]) {
        None
    } else {
        match read_double_quoted_text(w.drop_first()) {
            Some(rest) => Some(seq![w[0]] + rest),
            None => None,
        }
    }
}

/// Reading the single-quoted form of `p` inside a single-quoted run adds
/// `p` to what was read.
pub proof fn lemma_read_single_quote_body(p: Seq<char>, tail: Seq<char>, acc: Seq<char>)
    ensures
        read_single_quoted_run(single_quote_body(p) + tail, acc) == read_single_quoted_run(
            tail,
            acc + p,
        ),
    decreases p.len(),
{
    if p.len() == 0 {
        assert(single_quote_body(p) + tail =~= tail);
        assert(acc + p =~= acc);
    } else {
        let c = p[0];
        let rest = p.drop_first();
        lemma_read_single_quote_body(rest, tail, acc.push(c));
        assert(acc.push(c) + rest =~= acc + p);
        let w = single_quote_body(p) + tail;
        assert(single_quote_body(p) == single_quote_piece(c) + single_quote_body(rest));
        let inner = single_quote_body(rest) + tail;
        if c == '\'' {
            assert(w =~= seq!['\'', '\\', '\'', '\''] + inner);
            let w1 = w.drop_first();
            assert(w1 =~= seq!['\\', '\'', '\''] + inner);
            let w2 = w1.skip(2);
            assert(w2 =~= seq!['\''] + inner);
            assert(w2.drop_first() =~= inner);
            assert(read_single_quoted_run(w, acc) == read_quoted_word(w1, acc));
            assert(read_quoted_word(w1, acc) == read_quoted_word(w2, acc.push('\'')));
            assert(read_quoted_word(w2, acc.push('\'')) == read_single_quoted_run(
                inner,
                acc.push('\''),
            ));
        } else {
            assert(w =~= seq![c] + inner);
            assert(w.drop_first() =~= inner);
            assert(read_single_quoted_run(w, acc) == read_single_quoted_run(inner, acc.push(c)));
        }
    }
}

/// A path single-quoted by the hook is read by the shell as the path
/// itself, with nothing left to expand.
pub proof fn law_single_quoted_reads_back(p: Seq<char>)
    ensures
        read_quoted_word(single_quoted(p), seq![]) == Some(p),
{
    let w = single_quoted(p);
    assert(w[0] == '\'');
    assert(w.drop_first() =~= single_quote_body(p) + seq!['\'']);
    assert(read_quoted_word(w, seq![]) == read_single_quoted_run(w.drop_first(), seq![]));
    lemma_read_single_quote_body(p, seq!['\''], seq![]);
    assert(seq![] + p =~= p);
    assert(seq!['\''].drop_first() =~= Seq::<char>::empty());
    assert(read_single_quoted_run(seq!['\''], p) == read_quoted_word(Seq::<char>::empty(), p));
}

/// Text escaped for double quotes is read inside double quotes as the text
/// itself, with nothing expanded.
pub proof fn law_double_quoted_reads_back(p: Seq<char>)
    ensures
        read_double_quoted_text(double_quote_escaped(p)) == Some(p),
    decreases p.len(),
{
    if p.len() > 0 {
        let c = p[0];
        let rest = p.drop_first();
        law_double_quoted_reads_back(rest);
        let w = double_quote_escaped(p);
        if special_in_double_quotes(c) {
            assert(w =~= seq!['\\', c] + double_quote_escaped(rest));
            assert(w.skip(2) =~= double_quote_escaped(rest));
        } else {
            assert(w =~= seq![c] + double_quote_escaped(rest));
            assert(w.drop_first() =~= double_quote_escaped(rest));
        }
        assert(seq![c] + rest =~= p);
    } else {
        assert(double_quote_escaped(p) == Seq::<char>::empty());
    }
}

/// The history file argument of a hook stands for the path: `~` alone is
/// `$HOME`; a path under `~/` is `"$HOME/…"` whose rest the shell reads back
/// unchanged, with nothing expanded; any other path is a single-quoted word
/// that the shell reads back as the path.
pub proof fn law_hook_argument_reads_back(path: Seq<char>)
    ensures
        path == seq!['~'] ==> quoted_path(path) == "$HOME"@,
        path != seq!['~'] && path.len() >= 2 && path[0] == '~' && path[1] == '/' ==> exists|
            escaped: Seq<char>,
        |
            quoted_path(path) == "\"$HOME/"@ + escaped + "\""@ && read_double_quoted_text(escaped)
                == Some(path.skip(2)),
        !(path == seq!['~']) && !(path.len() >= 2 && path[0] == '~' && path[1] == '/')
            ==> read_quoted_word(quoted_path(path), seq![]) == Some(path),
{
    law_single_quoted_reads_back(path);
    law_double_quoted_reads_back(path.skip(2));
    if path != seq!['~'] && path.len() >= 2 && path[0] == '~' && path[1] == '/' {
        let escaped = double_quote_escaped(path.skip(2));
        assert(quoted_path(path) == "\"$HOME/"@ + escaped + "\""@);
    }
}

} // verus!
