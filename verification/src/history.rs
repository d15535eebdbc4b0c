//! History files: the shell that wrote them, where they live, and their
//! line format.
use vstd::prelude::*;
use vstd::string::*;
use crate::text::{
    chars_of, contains_chars, copy_chars, contains_seq, find_from, first_occurrence, lemma_first_occurrence,
    occurs_at, string_of,
};

verus! {

/// The shell whose history format a file uses.
#[derive(Clone, Copy, Debug, PartialEq, Eq, Structural)]
pub enum ShellKind {
    Bash,
    Zsh,
}

/// A history file and the shell format it is read with.
#[derive(Clone, Debug, PartialEq, Eq)]
pub struct HistorySource {
    pub shell: ShellKind,
    pub path: String,
}

/// One history line: the command it records and the line as it stands in
/// the file.
#[derive(Clone, Debug, PartialEq, Eq)]
pub struct HistoryEntry {
    pub command: String,
    pub raw_line: String,
}

/// The abstract content of a `HistoryEntry`.
pub struct EntryView {
    pub command: Seq<char>,
    pub raw_line: Seq<char>,
}

impl View for HistoryEntry {
    type V = EntryView;

    open spec fn view(&self) -> EntryView {
        EntryView { command: self.command@, raw_line: self.raw_line@ }
    }
}

/// The views of a sequence of entries.
pub open spec fn entry_views(entries: Seq<HistoryEntry>) -> Seq<EntryView> {
    entries.map_values(|e: HistoryEntry| e@)
}

/// `char::is_whitespace`: the characters with the Unicode `White_Space`
/// property.
pub open spec fn is_whitespace(c: char) -> bool {
    let v = c as u32;
    ||| v == 0x20
    ||| 0x09 <= v <= 0x0d
    ||| v == 0x85
    ||| v == 0xa0
    ||| v == 0x1680
    ||| 0x2000 <= v <= 0x200a
    ||| v == 0x2028
    ||| v == 0x2029
    ||| v == 0x202f
    ||| v == 0x205f
    ||| v == 0x3000
}

/// A line is blank when trimming it leaves nothing.
pub open spec fn is_blank(line: Seq<char>) -> bool {
    forall|i: int| 0 <= i < line.len() ==> is_whitespace(#[trigger] line[i])
}

/// A line without the carriage return that ends it, if it has one.
pub open spec fn strip_cr(line: Seq<char>) -> Seq<char> {
    if line.len() > 0 && line.last() == '\r' {
        line.drop_last()
    } else {
        line
    }
}

/// The lines of `s` when the line being read so far is `cur` (`str::lines`:
/// split after each `\n`, drop the `\n` and a `\r` just before it; a last
/// line without `\n` is kept whole when it is not empty).
pub open spec fn lines_from(s: Seq<char>, cur: Seq<char>) -> Seq<Seq<char>>
    decreases s.len(),
{
    if s.len() == 0 {
        if cur.len() == 0 {
            seq![]
        } else {
            seq![cur]
        }
    } else if s[0] == '\n' {
        seq![strip_cr(cur)] + lines_from(s.drop_first(), seq![])
    } else {
        lines_from(s.drop_first(), cur.push(s[0]))
    }
}

/// The lines of a file's contents.
pub open spec fn lines_of(s: Seq<char>) -> Seq<Seq<char>> {
    lines_from(s, seq![])
}

/// A zsh line in extended format (`: <time>:<duration>;<command>`) records
/// the command after the first `;`; any other line is the command itself.
pub open spec fn zsh_command(line: Seq<char>) -> Seq<char> {
    if line.len() >= 2 && line[0] == ':' && line[1] == ' ' {
        match first_occurrence(line, seq![';'], 0) {
            Some(k) => line.skip(k + 1),
            None => line,
        }
    } else {
        line
    }
}

/// The command that a history line of the given shell records.
pub open spec fn command_of(shell: ShellKind, line: Seq<char>) -> Seq<char> {
    match shell {
        ShellKind::Bash => line,
        ShellKind::Zsh => zsh_command(line),
    }
}

/// The entry that a history line stands for.
pub open spec fn entry_of(shell: ShellKind, line: Seq<char>) -> EntryView {
    EntryView { command: command_of(shell, line), raw_line: line }
}

/// The entries of a sequence of lines: one for each line that is not blank.
pub open spec fn entries_of_lines(shell: ShellKind, lines: Seq<Seq<char>>) -> Seq<EntryView>
    decreases lines.len(),
{
    if lines.len() == 0 {
        seq![]
    } else {
        let rest = entries_of_lines(shell, lines.drop_last());
        if is_blank(lines.last()) {
            rest
        } else {
            rest.push(entry_of(shell, lines.last()))
        }
    }
}

/// The entries that a history file with the given contents holds.
pub open spec fn parsed_history(shell: ShellKind, contents: Seq<char>) -> Seq<EntryView> {
    entries_of_lines(shell, lines_of(contents))
}

/// The contents of a history file that holds the given entries: each raw
/// line followed by a newline.
pub open spec fn rendered_history(entries: Seq<EntryView>) -> Seq<char>
    decreases entries.len(),
{
    if entries.len() == 0 {
        seq![]
    } else {
        entries[0].raw_line + seq!['\n'] + rendered_history(entries.drop_first())
    }
}

/// `char::is_whitespace`.
pub fn is_whitespace_char(c: char) -> (white: bool)
    ensures
        white == is_whitespace(c),
{
    let v = c as u32;
    v == 0x20 || (0x09 <= v && v <= 0x0d) || v == 0x85 || v == 0xa0 || v == 0x1680 || (0x2000
        <= v && v <= 0x200a) || v == 0x2028 || v == 0x2029 || v == 0x202f || v == 0x205f || v
        == 0x3000
}

/// Whether a line holds nothing but whitespace.
pub fn is_blank_line(line: &[char]) -> (blank: bool)
    ensures
        blank == is_blank(line@),
{
    let mut i: usize = 0;
    while i < line.len()
        invariant
            i <= line@.len(),
            forall|j: int| 0 <= j < i ==> is_whitespace(#[trigger] line@[j]),
        decreases line@.len() - i,
    {
        if !is_whitespace_char(line[i]) {
            return false;
        }
        i = i + 1;
    }
    true
}

/// The command recorded by a zsh history line.
fn parse_zsh_command(line: &[char]) -> (command: Vec<char>)
    ensures
        command@ == zsh_command(line@),
{
    if line.len() >= 2 && line[0] == ':' && line[1] == ' ' {
        let semicolon = vec![';'];
        match find_from(line, semicolon.as_slice(), 0) {
            Some(k) => {
                proof {
                    lemma_first_occurrence(line@, seq![';'], 0);
                    assert(semicolon@ =~= seq![';']);
                }
                let mut command: Vec<char> = Vec::new();
                let mut i = k + 1;
                while i < line.len()
                    invariant
                        k + 1 <= i <= line@.len(),
                        command@ == line@.subrange(k + 1, i as int),
                    decreases line@.len() - i,
                {
                    command.push(line[i]);
                    i = i + 1;
                    assert(command@ =~= line@.subrange(k + 1, i as int));
                }
                assert(command@ =~= line@.skip(k + 1));
                command
            },
            None => {
                assert(semicolon@ =~= seq![';']);
                copy_chars(line)
            },
        }
    } else {
        copy_chars(line)
    }
}

/// The entry that one line of a history file stands for.
fn parse_line(shell: ShellKind, line: &[char]) -> (entry: HistoryEntry)
    ensures
        entry@ == entry_of(shell, line@),
{
    let command = match shell {
        ShellKind::Bash => copy_chars(line),
        ShellKind::Zsh => parse_zsh_command(line),
    };
    HistoryEntry { command: string_of(command.as_slice()), raw_line: string_of(line) }
}

/// The views of a sequence of character vectors.
pub open spec fn char_views(lines: Seq<Vec<char>>) -> Seq<Seq<char>> {
    lines.map_values(|l: Vec<char>| l@)
}

/// Splits a file's contents into its lines.
pub fn split_lines(contents: &[char]) -> (lines: Vec<Vec<char>>)
    ensures
        char_views(lines@) == lines_of(contents@),
{
    let ghost s = contents@;
    let mut lines: Vec<Vec<char>> = Vec::new();
    let mut cur: Vec<char> = Vec::new();
    let mut i: usize = 0;
    assert(s.skip(0) =~= s);
    while i < contents.len()
        invariant
            s == contents@,
            i <= s.len(),
            char_views(lines@) + lines_from(s.skip(i as int), cur@) == lines_of(s),
        decreases s.len() - i,
    {
        let c = contents[i];
        let ghost rest = s.skip(i as int);
        assert(rest[0] == c);
        assert(rest.drop_first() =~= s.skip(i + 1));
        let ghost old_cur = cur@;
        if c == '\n' {
            let ghost line = strip_cr(cur@);
            if cur.len() > 0 && cur[cur.len() - 1] == '\r' {
                cur.pop();
            }
            assert(cur@ == line);
            let ghost before = char_views(lines@);
            lines.push(cur);
            assert(char_views(lines@) =~= before.push(line));
            assert(lines_from(rest, old_cur) == seq![line] + lines_from(s.skip(i + 1), seq![]));
            assert(before + lines_from(rest, old_cur) =~= before + (seq![line] + lines_from(
                s.skip(i + 1),
                seq![],
            )));
            assert(before.push(line) + lines_from(s.skip(i + 1), seq![]) =~= before + (seq![
                line,
            ] + lines_from(s.skip(i + 1), seq![])));
            cur = Vec::new();
            assert(cur@ =~= seq![]);
        } else {
            cur.push(c);
        }
        i = i + 1;
    }
    assert(s.skip(i as int) =~= seq![]);
    if cur.len() > 0 {
        let ghost before = char_views(lines@);
        let ghost last = cur@;
        lines.push(cur);
        assert(char_views(lines@) =~= before + seq![last]);
    } else {
        assert(char_views(lines@) =~= char_views(lines@) + seq![]);
    }
    lines
}

/// The entries of a history file with the given contents: one for each line
/// that is not blank, in order.
pub fn parse_history(shell: ShellKind, contents: &str) -> (entries: Vec<HistoryEntry>)
    ensures
        entry_views(entries@) == parsed_history(shell, contents@),
{
    let chars = chars_of(contents);
    let lines = split_lines(chars.as_slice());
    let ghost all = char_views(lines@);
    let mut entries: Vec<HistoryEntry> = Vec::new();
    let mut i: usize = 0;
    while i < lines.len()
        invariant
            i <= lines@.len(),
            all == char_views(lines@),
            entry_views(entries@) == entries_of_lines(shell, all.take(i as int)),
        decreases lines@.len() - i,
    {
        assert(all.take(i + 1).drop_last() =~= all.take(i as int));
        assert(all.take(i + 1).last() == lines@[i as int]@);
        let ghost before = entry_views(entries@);
        if !is_blank_line(lines[i].as_slice()) {
            let entry = parse_line(shell, lines[i].as_slice());
            entries.push(entry);
            assert(entry_views(entries@) =~= before.push(entry_of(shell, lines@[i as int]@)));
        }
        i = i + 1;
    }
    assert(all.take(lines@.len() as int) =~= all);
    entries
}

/// The contents of a history file holding the given entries: each raw line
/// followed by a newline.
pub fn history_file_contents(entries: &[HistoryEntry]) -> (contents: String)
    ensures
        contents@ == rendered_history(entry_views(entries@)),
{
    let ghost all = entry_views(entries@);
    let mut contents = String::new();
    let mut i: usize = 0;
    while i < entries.len()
        invariant
            i <= entries@.len(),
            all == entry_views(entries@),
            contents@ == rendered_history(all.take(i as int)),
        decreases entries@.len() - i,
    {
        proof {
            lemma_rendered_push(all.take(i as int), all[i as int]);
            assert(all.take(i as int).push(all[i as int]) =~= all.take(i + 1));
        }
        contents.append(entries[i].raw_line.as_str());
        contents.push('\n');
        i = i + 1;
    }
    assert(all.take(entries@.len() as int) =~= all);
    contents
}

/// Rendering one more entry appends its line.
pub proof fn lemma_rendered_push(entries: Seq<EntryView>, e: EntryView)
    ensures
        rendered_history(entries.push(e)) == rendered_history(entries) + e.raw_line + seq!['\n'],
    decreases entries.len(),
{
    if entries.len() == 0 {
        assert(entries.push(e).drop_first() =~= seq![]);
        assert(rendered_history(entries.push(e).drop_first()) == Seq::<char>::empty());
        assert(rendered_history(entries.push(e)) =~= e.raw_line + seq!['\n']);
    } else {
        lemma_rendered_push(entries.drop_first(), e);
        assert(entries.push(e).drop_first() =~= entries.drop_first().push(e));
        assert(rendered_history(entries.push(e)) =~= rendered_history(entries) + e.raw_line
            + seq!['\n']);
    }
}

/// An entry that a history file gives back unchanged: its line is not
/// blank, holds no newline, does not end with a carriage return, and records
/// the command that the shell's format reads from it.
pub open spec fn storable_entry(shell: ShellKind, e: EntryView) -> bool {
    &&& !is_blank(e.raw_line)
    &&& !e.raw_line.contains('\n')
    &&& !(e.raw_line.len() > 0 && e.raw_line.last() == '\r')
    &&& e.command == command_of(shell, e.raw_line)
}

/// The raw lines of a sequence of entries.
pub open spec fn raw_lines(entries: Seq<EntryView>) -> Seq<Seq<char>> {
    entries.map_values(|e: EntryView| e.raw_line)
}

/// A line without newlines, then a newline: the line is read whole.
pub proof fn lemma_lines_one_line(raw: Seq<char>, rest: Seq<char>, cur: Seq<char>)
    requires
        !raw.contains('\n'),
    ensures
        lines_from(raw + seq!['\n'] + rest, cur) == seq![strip_cr(cur + raw)] + lines_from(
            rest,
            seq![],
        ),
    decreases raw.len(),
{
    let s = raw + seq!['\n'] + rest;
    if raw.len() == 0 {
        assert(s[0] == '\n');
        assert(s.drop_first() =~= rest);
        assert(cur + raw =~= cur);
    } else {
        assert(s[0] == raw[0]);
        assert(raw[0] != '\n') by {
            if raw[0] == '\n' {
                assert(raw.contains('\n'));
            }
        }
        let tail = raw.drop_first();
        assert(!tail.contains('\n')) by {
            if tail.contains('\n') {
                let k = choose|k: int| 0 <= k < tail.len() && tail[k] == '\n';
                assert(raw[k + 1] == '\n');
            }
        }
        assert(s.drop_first() =~= tail + seq!['\n'] + rest);
        lemma_lines_one_line(tail, rest, cur.push(raw[0]));
        assert(cur.push(raw[0]) + tail =~= cur + raw);
    }
}

/// The lines of a rendered history are the raw lines of its entries.
pub proof fn lemma_lines_of_rendered(entries: Seq<EntryView>)
    requires
        forall|i: int|
            0 <= i < entries.len() ==> !(#[trigger] entries[i]).raw_line.contains('\n') && !(
            entries[i].raw_line.len() > 0 && entries[i].raw_line.last() == '\r'),
    ensures
        lines_of(rendered_history(entries)) == raw_lines(entries),
    decreases entries.len(),
{
    if entries.len() == 0 {
        assert(raw_lines(entries) =~= seq![]);
    } else {
        let rest = entries.drop_first();
        assert forall|i: int| 0 <= i < rest.len() implies !(#[trigger] rest[i]).raw_line.contains(
            '\n',
        ) && !(rest[i].raw_line.len() > 0 && rest[i].raw_line.last() == '\r') by {
            assert(rest[i] == entries[i + 1]);
        }
        lemma_lines_of_rendered(rest);
        let raw = entries[0].raw_line;
        assert(entries[0] == entries[0]);
        lemma_lines_one_line(raw, rendered_history(rest), seq![]);
        assert(seq![] + raw =~= raw);
        assert(rendered_history(entries) == raw + seq!['\n'] + rendered_history(rest));
        assert(raw_lines(entries) =~= seq![raw] + raw_lines(rest));
    }
}

/// Entries that are storable are read back from their own raw lines.
pub proof fn lemma_entries_of_raw_lines(shell: ShellKind, entries: Seq<EntryView>)
    requires
        forall|i: int| 0 <= i < entries.len() ==> storable_entry(shell, #[trigger] entries[i]),
    ensures
        entries_of_lines(shell, raw_lines(entries)) == entries,
    decreases entries.len(),
{
    if entries.len() == 0 {
        assert(raw_lines(entries) =~= seq![]);
    } else {
        let init = entries.drop_last();
        assert forall|i: int| 0 <= i < init.len() implies storable_entry(
            shell,
            #[trigger] init[i],
        ) by {
            assert(init[i] == entries[i]);
        }
        lemma_entries_of_raw_lines(shell, init);
        assert(raw_lines(entries).drop_last() =~= raw_lines(init));
        let last = entries.last();
        assert(storable_entry(shell, entries[entries.len() - 1]));
        assert(raw_lines(entries).last() == last.raw_line);
        assert(entry_of(shell, last.raw_line) == last);
        assert(init.push(last) =~= entries);
    }
}

/// Writing entries to a history file and reading the file back with the same
/// shell format gives back the same entries, provided that each entry is
/// storable.
pub proof fn law_history_read_back(shell: ShellKind, entries: Seq<EntryView>)
    requires
        forall|i: int| 0 <= i < entries.len() ==> storable_entry(shell, #[trigger] entries[i]),
    ensures
        parsed_history(shell, rendered_history(entries)) == entries,
{
    assert forall|i: int| 0 <= i < entries.len() implies !(
    #[trigger] entries[i]).raw_line.contains('\n') && !(entries[i].raw_line.len() > 0
        && entries[i].raw_line.last() == '\r') by {
        assert(storable_entry(shell, entries[i]));
    }
    lemma_lines_of_rendered(entries);
    lemma_entries_of_raw_lines(shell, entries);
}

/// `char::to_ascii_lowercase`: ASCII capitals become small letters, every
/// other character stays.
pub open spec fn ascii_lower(c: char) -> char {
    if 'A' <= c <= 'Z' {
        ((c as u32) + 32) as char
    } else {
        c
    }
}

/// A string with its ASCII capitals made small (`str::to_ascii_lowercase`).
pub open spec fn ascii_lowercase(s: Seq<char>) -> Seq<char> {
    s.map_values(|c: char| ascii_lower(c))
}

/// The shell whose format a history file uses, judged by the file's name
/// (`file_name`, empty when the path has none) and, when the name tells
/// nothing, by the login shell (`$SHELL`).
pub open spec fn inferred_shell(file_name: Seq<char>, login_shell: Seq<char>) -> ShellKind {
    let name = ascii_lowercase(file_name);
    if contains_seq(name, seq!['z', 's', 'h']) || contains_seq(
        name,
        seq!['z', 'h', 'i', 's', 't', 'o', 'r', 'y'],
    ) {
        ShellKind::Zsh
    } else if contains_seq(name, seq!['b', 'a', 's', 'h']) {
        ShellKind::Bash
    } else if contains_seq(login_shell, seq!['z', 's', 'h']) {
        ShellKind::Zsh
    } else {
        ShellKind::Bash
    }
}

/// What `Path::file_name` returns for a path, taken as text: the last
/// component, or nothing when the path ends in `..` or is a root or empty.
pub uninterp spec fn file_name_of(path: Seq<char>) -> Option<Seq<char>>;

/// The file name of a path, or the empty text when it has none.
pub open spec fn file_name_or_empty(path: Seq<char>) -> Seq<char> {
    match file_name_of(path) {
        Some(name) => name,
        None => seq![],
    }
}

/// Calls `Path::file_name`; the result is named by `file_name_of`. A path
/// given as `&str` always has a UTF-8 file name, so the conversion back to
/// text loses nothing.
#[verifier::external_body]
fn path_file_name(path: &str) -> (name: Option<String>)
    ensures
        match name {
            Some(n) => file_name_of(path@) == Some(n@),
            None => file_name_of(path@) is None,
        },
{
    std::path::Path::new(path).file_name().and_then(|n| n.to_str()).map(|n| n.to_string())
}

/// A string with its ASCII capitals made small.
pub fn to_ascii_lowercase(s: &[char]) -> (lowered: Vec<char>)
    ensures
        lowered@ == ascii_lowercase(s@),
{
    let mut lowered: Vec<char> = Vec::new();
    let mut i: usize = 0;
    while i < s.len()
        invariant
            i <= s@.len(),
            lowered@ == ascii_lowercase(s@.take(i as int)),
        decreases s@.len() - i,
    {
        let c = s[i];
        let l = if 'A' <= c && c <= 'Z' {
            ((c as u8) + 32) as char
        } else {
            c
        };
        assert(l == ascii_lower(c));
        lowered.push(l);
        i = i + 1;
        assert(ascii_lowercase(s@.take(i as int)) =~= ascii_lowercase(s@.take(i - 1)).push(
            ascii_lower(c),
        ));
    }
    assert(s@.take(s@.len() as int) =~= s@);
    lowered
}

/// The shell whose format a history file uses, judged by its file name and,
/// failing that, by the login shell.
pub fn infer_shell(file_name: &str, login_shell: &str) -> (shell: ShellKind)
    ensures
        shell == inferred_shell(file_name@, login_shell@),
{
    let name = to_ascii_lowercase(chars_of(file_name).as_slice());
    let login = chars_of(login_shell);
    let zsh = vec!['z', 's', 'h'];
    let zhistory = vec!['z', 'h', 'i', 's', 't', 'o', 'r', 'y'];
    let bash = vec!['b', 'a', 's', 'h'];
    assert(zsh@ =~= seq!['z', 's', 'h']);
    assert(zhistory@ =~= seq!['z', 'h', 'i', 's', 't', 'o', 'r', 'y']);
    assert(bash@ =~= seq!['b', 'a', 's', 'h']);
    if contains_chars(name.as_slice(), zsh.as_slice()) || contains_chars(
        name.as_slice(),
        zhistory.as_slice(),
    ) {
        ShellKind::Zsh
    } else if contains_chars(name.as_slice(), bash.as_slice()) {
        ShellKind::Bash
    } else if contains_chars(login.as_slice(), zsh.as_slice()) {
        ShellKind::Zsh
    } else {
        ShellKind::Bash
    }
}

/// The source for a history file given by path: the shell is the hint when
/// there is one, else the one the file name (or the login shell) suggests.
pub fn source_from_path(path: String, shell_hint: Option<ShellKind>, login_shell: &str) -> (source:
    HistorySource)
    ensures
        source.path@ == path@,
        source.shell == match shell_hint {
            Some(shell) => shell,
            None => inferred_shell(file_name_or_empty(path@), login_shell@),
        },
{
    let shell = match shell_hint {
        Some(shell) => shell,
        None => {
            let name = match path_file_name(path.as_str()) {
                Some(name) => name,
                None => String::new(),
            };
            infer_shell(name.as_str(), login_shell)
        },
    };
    HistorySource { shell, path }
}

/// The name of a shell's history file in the home directory.
pub open spec fn history_file_name(shell: ShellKind) -> Seq<char> {
    match shell {
        ShellKind::Bash => ".bash_history"@,
        ShellKind::Zsh => ".zsh_history"@,
    }
}

/// `Path::join` with a relative name: a `/` goes between the two unless the
/// base is empty or already ends with one.
pub open spec fn joined_path(base: Seq<char>, name: Seq<char>) -> Seq<char> {
    if base.len() > 0 && base.last() != '/' {
        base + seq!['/'] + name
    } else {
        base + name
    }
}

/// The text of an optional string.
pub open spec fn opt_view(value: Option<String>) -> Option<Seq<char>> {
    match value {
        Some(s) => Some(s@),
        None => None,
    }
}

/// The history source found from the environment: `$HISTFILE` when it is
/// set and not empty; else, in the home directory, the file of the login
/// shell when that is zsh or bash; else whichever of the zsh and bash files
/// exists, zsh first. Each source is a shell and a path; an error is its
/// message.
pub open spec fn detected_source(
    histfile: Option<Seq<char>>,
    home: Option<Seq<char>>,
    login_shell: Seq<char>,
    zsh_exists: bool,
    bash_exists: bool,
) -> Result<(ShellKind, Seq<char>), Seq<char>> {
    if histfile matches Some(h) && h.len() > 0 {
        Ok((inferred_shell(file_name_or_empty(histfile->0), login_shell), histfile->0))
    } else {
        match home {
            None => Err("could not find home directory"@),
            Some(home) => {
                let zsh_path = joined_path(home, history_file_name(ShellKind::Zsh));
                let bash_path = joined_path(home, history_file_name(ShellKind::Bash));
                if contains_seq(login_shell, seq!['z', 's', 'h']) {
                    Ok((ShellKind::Zsh, zsh_path))
                } else if contains_seq(login_shell, seq!['b', 'a', 's', 'h']) {
                    Ok((ShellKind::Bash, bash_path))
                } else if zsh_exists {
                    Ok((ShellKind::Zsh, zsh_path))
                } else if bash_exists {
                    Ok((ShellKind::Bash, bash_path))
                } else {
                    Err(
                        "could not detect Bash or Zsh history file; set HISTFILE to a history path"@,
                    )
                }
            },
        }
    }
}

/// The path of a shell's history file in the given home directory.
pub fn home_history_path(home: &str, shell: ShellKind) -> (path: String)
    ensures
        path@ == joined_path(home@, history_file_name(shell)),
{
    let mut path = String::from_str(home);
    let chars = chars_of(home);
    if chars.len() > 0 && chars[chars.len() - 1] != '/' {
        path.push('/');
    }
    match shell {
        ShellKind::Bash => path.append(".bash_history"),
        ShellKind::Zsh => path.append(".zsh_history"),
    }
    path
}

/// Finds the history file from the environment: `histfile` is `$HISTFILE`,
/// `home` the home directory, `login_shell` is `$SHELL` (empty when unset),
/// and the two flags say whether the zsh and the bash history files exist in
/// the home directory.
pub fn detect_history_source(
    histfile: Option<String>,
    home: Option<String>,
    login_shell: &str,
    zsh_exists: bool,
    bash_exists: bool,
) -> (source: Result<HistorySource, String>)
    ensures
        match source {
            Ok(s) => detected_source(
                opt_view(histfile),
                opt_view(home),
                login_shell@,
                zsh_exists,
                bash_exists,
            ) == Ok::<(ShellKind, Seq<char>), Seq<char>>((s.shell, s.path@)),
            Err(e) => detected_source(
                opt_view(histfile),
                opt_view(home),
                login_shell@,
                zsh_exists,
                bash_exists,
            ) == Err::<(ShellKind, Seq<char>), Seq<char>>(e@),
        },
{
    if let Some(path) = histfile {
        if !path.as_str().is_empty() {
            return Ok(source_from_path(path, None, login_shell));
        }
    }
    let home = match home {
        Some(home) => home,
        None => return Err(String::from_str("could not find home directory")),
    };
    let login = chars_of(login_shell);
    let zsh = vec!['z', 's', 'h'];
    let bash = vec!['b', 'a', 's', 'h'];
    assert(zsh@ =~= seq!['z', 's', 'h']);
    assert(bash@ =~= seq!['b', 'a', 's', 'h']);
    if contains_chars(login.as_slice(), zsh.as_slice()) {
        return Ok(
            HistorySource { shell: ShellKind::Zsh, path: home_history_path(&home, ShellKind::Zsh) },
        );
    }
    if contains_chars(login.as_slice(), bash.as_slice()) {
        return Ok(
            HistorySource {
                shell: ShellKind::Bash,
                path: home_history_path(&home, ShellKind::Bash),
            },
        );
    }
    if zsh_exists {
        return Ok(
            HistorySource { shell: ShellKind::Zsh, path: home_history_path(&home, ShellKind::Zsh) },
        );
    }
    if bash_exists {
        return Ok(
            HistorySource {
                shell: ShellKind::Bash,
                path: home_history_path(&home, ShellKind::Bash),
            },
        );
    }
    Err(
        String::from_str(
            "could not detect Bash or Zsh history file; set HISTFILE to a history path",
        ),
    )
}

/// No line of a text holds a newline.
pub proof fn lemma_lines_have_no_newline(s: Seq<char>, cur: Seq<char>)
    requires
        !cur.contains('\n'),
    ensures
        forall|i: int|
            0 <= i < lines_from(s, cur).len() ==> !(#[trigger] lines_from(s, cur)[i]).contains(
                '\n',
            ),
    decreases s.len(),
{
    if s.len() == 0 {
        if cur.len() > 0 {
            assert(lines_from(s, cur) == seq![cur]);
            assert forall|i: int| 0 <= i < lines_from(s, cur).len() implies !(
            #[trigger] lines_from(s, cur)[i]).contains('\n') by {
                assert(lines_from(s, cur)[i] == cur);
            }
        }
    } else if s[0] == '\n' {
        lemma_lines_have_no_newline(s.drop_first(), seq![]);
        let line = strip_cr(cur);
        assert(!line.contains('\n')) by {
            if line.contains('\n') {
                let k = choose|k: int| 0 <= k < line.len() && line[k] == '\n';
                assert(cur[k] == '\n');
            }
        }
        let rest = lines_from(s.drop_first(), seq![]);
        assert forall|i: int| 0 <= i < lines_from(s, cur).len() implies !(#[trigger] lines_from(
            s,
            cur,
        )[i]).contains('\n') by {
            if i > 0 {
                assert(lines_from(s, cur)[i] == rest[i - 1]);
            }
        }
    } else {
        let next = cur.push(s[0]);
        assert(!next.contains('\n')) by {
            if next.contains('\n') {
                let k = choose|k: int| 0 <= k < next.len() && next[k] == '\n';
                if k < cur.len() {
                    assert(cur[k] == '\n');
                }
            }
        }
        lemma_lines_have_no_newline(s.drop_first(), next);
        assert(lines_from(s, cur) == lines_from(s.drop_first(), next));
    }
}

/// The entries of some lines come from lines that are not blank, each read
/// with the shell's format.
pub proof fn lemma_entries_of_lines_read(shell: ShellKind, lines: Seq<Seq<char>>)
    requires
        forall|i: int| 0 <= i < lines.len() ==> !(#[trigger] lines[i]).contains('\n'),
    ensures
        forall|i: int|
            0 <= i < entries_of_lines(shell, lines).len() ==> {
                let e = #[trigger] entries_of_lines(shell, lines)[i];
                &&& !is_blank(e.raw_line)
                &&& !e.raw_line.contains('\n')
                &&& e.command == command_of(shell, e.raw_line)
            },
    decreases lines.len(),
{
    if lines.len() > 0 {
        let init = lines.drop_last();
        assert forall|i: int| 0 <= i < init.len() implies !(#[trigger] init[i]).contains('\n') by {
            assert(init[i] == lines[i]);
        }
        lemma_entries_of_lines_read(shell, init);
        assert(!lines[lines.len() - 1].contains('\n'));
        let rest = entries_of_lines(shell, init);
        let all = entries_of_lines(shell, lines);
        assert forall|i: int| 0 <= i < all.len() implies {
            let e = #[trigger] all[i];
            &&& !is_blank(e.raw_line)
            &&& !e.raw_line.contains('\n')
            &&& e.command == command_of(shell, e.raw_line)
        } by {
            if i < rest.len() {
                assert(all[i] == rest[i]);
            } else {
                assert(all[i] == entry_of(shell, lines.last()));
            }
        }
    }
}

/// Every entry read from a history file comes from a line that is not
/// blank and holds no newline, and records the command that the shell's
/// format reads from that line.
pub proof fn law_parsed_entries_are_lines(shell: ShellKind, contents: Seq<char>)
    ensures
        forall|i: int|
            0 <= i < parsed_history(shell, contents).len() ==> {
                let e = #[trigger] parsed_history(shell, contents)[i];
                &&& !is_blank(e.raw_line)
                &&& !e.raw_line.contains('\n')
                &&& e.command == command_of(shell, e.raw_line)
            },
{
    lemma_lines_have_no_newline(contents, seq![]);
    lemma_entries_of_lines_read(shell, lines_of(contents));
}

/// A zsh extended line `: <header>;<command>` whose header holds no `;`
/// records everything after that first `;` as the command, whatever the
/// command itself holds (`;` included).
pub proof fn law_zsh_extended_command(header: Seq<char>, command: Seq<char>)
    requires
        !header.contains(';'),
    ensures
        zsh_command(seq![':', ' '] + header + seq![';'] + command) == command,
{
    let line = seq![':', ' '] + header + seq![';'] + command;
    let p: int = 2 + header.len() as int;
    assert(line.subrange(p, p + 1) =~= seq![';']);
    assert(occurs_at(line, seq![';'], p));
    assert forall|j: int| 0 <= j < p implies !occurs_at(line, seq![';'], j) by {
        if occurs_at(line, seq![';'], j) {
            assert(line.subrange(j, j + 1)[0] == ';');
            assert(line[j] == ';');
            if j >= 2 {
                assert(header[j - 2] == line[j]);
                assert(header.contains(';'));
            }
        }
    }
    lemma_first_occurrence(line, seq![';'], 0);
    assert(first_occurrence(line, seq![';'], 0) == Some(p));
    assert(line.skip(p + 1) =~= command);
}

/// Reading a history file that holds one zsh extended line gives one entry:
/// its command is everything after the first `;`, its raw line the line.
pub proof fn law_parse_zsh_extended_line(header: Seq<char>, command: Seq<char>)
    requires
        !header.contains(';'),
        !header.contains('\n'),
        !command.contains('\n'),
        command.len() > 0 ==> command.last() != '\r',
    ensures
        parsed_history(ShellKind::Zsh, seq![':', ' '] + header + seq![';'] + command + seq!['\n'])
            == seq![
            EntryView { command, raw_line: seq![':', ' '] + header + seq![';'] + command },
        ],
{
    let line = seq![':', ' '] + header + seq![';'] + command;
    law_zsh_extended_command(header, command);
    assert(!line.contains('\n')) by {
        if line.contains('\n') {
            let k = choose|k: int| 0 <= k < line.len() && line[k] == '\n';
            if 2 <= k < 2 + header.len() {
                assert(header[k - 2] == '\n');
            } else if k > 2 + header.len() {
                assert(command[k - 3 - header.len()] == '\n');
            }
        }
    }
    assert(line.last() != '\r') by {
        if command.len() == 0 {
            assert(line.last() == ';');
        } else {
            assert(line.last() == command.last());
        }
    }
    let entries = seq![EntryView { command, raw_line: line }];
    assert(!is_blank(line)) by {
        assert(line[0] == ':');
    }
    assert(storable_entry(ShellKind::Zsh, entries[0]));
    law_history_read_back(ShellKind::Zsh, entries);
    assert(entries.drop_first() =~= Seq::<EntryView>::empty());
    assert(rendered_history(entries.drop_first()) == Seq::<char>::empty());
    assert(rendered_history(entries) =~= line + seq!['\n']);
}

/// A bash line records itself as the command, and so does a zsh line that
/// does not start with `: ` or holds no `;`.
pub proof fn law_plain_line_is_command(line: Seq<char>)
    ensures
        command_of(ShellKind::Bash, line) == line,
        !(line.len() >= 2 && line[0] == ':' && line[1] == ' ') ==> command_of(ShellKind::Zsh, line)
            == line,
        !line.contains(';') ==> command_of(ShellKind::Zsh, line) == line,
{
    lemma_first_occurrence(line, seq![';'], 0);
    if !line.contains(';') {
        assert forall|j: int| 0 <= j implies !occurs_at(line, seq![';'], j) by {
            if occurs_at(line, seq![';'], j) {
                assert(line.subrange(j, j + 1)[0] == line[j]);
            }
        }
        if first_occurrence(line, seq![';'], 0) is Some {
            let k = first_occurrence(line, seq![';'], 0)->Some_0;
            assert(occurs_at(line, seq![';'], k));
        }
    }
}

} // verus!
