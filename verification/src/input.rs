//! Key handling: what each key does to the picker.
use vstd::prelude::*;
use crate::app::{law_restore_undoes_delete, App};
use crate::history::HistoryEntry;
use vstd::string::*;

verus! {

/// The keys the picker tells apart.
#[derive(Clone, Copy, Debug, PartialEq, Eq, Structural)]
pub enum KeyCode {
    Enter,
    Esc,
    Up,
    Down,
    Backspace,
    Delete,
    Char(char),
    Other,
}

/// A key press: the key and whether Control was held.
#[derive(Clone, Copy, Debug, PartialEq, Eq, Structural)]
pub struct KeyEvent {
    pub code: KeyCode,
    pub control: bool,
}

impl KeyEvent {
    /// A key press.
    pub fn new(code: KeyCode, control: bool) -> (key: KeyEvent)
        ensures
            key.code == code,
            key.control == control,
    {
        KeyEvent { code, control }
    }
}

/// What a key press asks of the picker.
#[derive(Clone, Copy, Debug, PartialEq, Eq, Structural)]
pub enum KeyCommand {
    Accept,
    Cancel,
    MoveUp,
    MoveDown,
    DeleteQueryChar,
    DeleteEntry,
    Type(char),
    Ignore,
}

/// Enter accepts; Esc and Ctrl-C cancel; Up and Ctrl-P move up; Down and
/// Ctrl-N move down; Backspace shortens the query; Delete and Ctrl-D delete
/// the selected entry; any other character is typed into the query; other
/// keys do nothing.
pub open spec fn key_command(key: KeyEvent) -> KeyCommand {
    match key.code {
        KeyCode::Enter => KeyCommand::Accept,
        KeyCode::Esc => KeyCommand::Cancel,
        KeyCode::Char(c) if c == 'c' && key.control => KeyCommand::Cancel,
        KeyCode::Up => KeyCommand::MoveUp,
        KeyCode::Down => KeyCommand::MoveDown,
        KeyCode::Char(c) if c == 'p' && key.control => KeyCommand::MoveUp,
        KeyCode::Char(c) if c == 'n' && key.control => KeyCommand::MoveDown,
        KeyCode::Backspace => KeyCommand::DeleteQueryChar,
        KeyCode::Delete => KeyCommand::DeleteEntry,
        KeyCode::Char(c) if c == 'd' && key.control => KeyCommand::DeleteEntry,
        KeyCode::Char(c) => KeyCommand::Type(c),
        KeyCode::Other => KeyCommand::Ignore,
    }
}

/// What a key press asks of the picker.
pub fn command_for_key(key: KeyEvent) -> (command: KeyCommand)
    ensures
        command == key_command(key),
{
    match key.code {
        KeyCode::Enter => KeyCommand::Accept,
        KeyCode::Esc => KeyCommand::Cancel,
        KeyCode::Char(c) if c == 'c' && key.control => KeyCommand::Cancel,
        KeyCode::Up => KeyCommand::MoveUp,
        KeyCode::Down => KeyCommand::MoveDown,
        KeyCode::Char(c) if c == 'p' && key.control => KeyCommand::MoveUp,
        KeyCode::Char(c) if c == 'n' && key.control => KeyCommand::MoveDown,
        KeyCode::Backspace => KeyCommand::DeleteQueryChar,
        KeyCode::Delete => KeyCommand::DeleteEntry,
        KeyCode::Char(c) if c == 'd' && key.control => KeyCommand::DeleteEntry,
        KeyCode::Char(c) => KeyCommand::Type(c),
        KeyCode::Other => KeyCommand::Ignore,
    }
}

/// `after` is `before` once the delete key was handled: the selected
/// visible entry is removed and returned (see `App::after_delete`), or,
/// when no visible entry is selected, only the status message says so.
pub open spec fn after_delete_key(
    after: App,
    before: App,
    removed: Option<(usize, HistoryEntry)>,
) -> bool {
    if before.selected < before.visible().len() {
        after.after_delete(before, removed)
    } else {
        &&& removed is None
        &&& after.status matches Some(message) && message@ == "no command selected"@
        &&& after.source == before.source
        &&& after.entries == before.entries
        &&& after.query == before.query
        &&& after.selected == before.selected
        &&& after.should_quit == before.should_quit
        &&& after.accepted_command == before.accepted_command
        &&& after.scroll_offset == before.scroll_offset
        &&& after.viewport_height == before.viewport_height
    }
}

/// Deletes the selected entry and returns it with its index, to be written
/// out by the caller; with no visible entry selected, says so in the status
/// message and returns nothing.
pub fn delete_selected(app: &mut App) -> (removed: Option<(usize, HistoryEntry)>)
    requires
        old(app).entries@.len() > 1 ==> old(app).scroll_offset + old(app).viewport_height
            <= usize::MAX,
    ensures
        after_delete_key(*final(app), *old(app), removed),
{
    match app.delete_selected() {
        Some(removed) => Some(removed),
        None => {
            app.status = Some(String::from_str("no command selected"));
            None
        },
    }
}

/// Settles a deletion once the caller tried to write the remaining entries
/// out: on failure the entry is put back where it was and the error shown.
pub fn finish_delete(
    app: &mut App,
    index: usize,
    removed: HistoryEntry,
    written: Result<(), String>,
)
    requires
        old(app).scroll_offset + old(app).viewport_height <= usize::MAX,
    ensures
        written is Ok ==> *final(app) == *old(app),
        written matches Err(error) ==> exists|restored: App|
            #[trigger] restored.after_restore(*old(app), index, removed) && final(app).after_error(
                restored,
                error@,
            ),
{
    match written {
        Ok(()) => {},
        Err(error) => {
            app.restore_entry(index, removed);
            let ghost restored = *app;
            app.set_error(error.as_str());
            assert(restored.after_restore(*old(app), index, removed));
        },
    }
}

/// `after` and `removed` are what handling `key` on `before` gives: the
/// change that the key's command asks for, and a removed entry only for a
/// deletion.
pub open spec fn key_handled(
    after: App,
    before: App,
    key: KeyEvent,
    removed: Option<(usize, HistoryEntry)>,
) -> bool {
    &&& key_command(key) != KeyCommand::DeleteEntry ==> removed is None
    &&& match key_command(key) {
        KeyCommand::Accept => after.after_accept(before),
        KeyCommand::Cancel => after.after_cancel(before),
        KeyCommand::MoveUp => after.after_move_up(before),
        KeyCommand::MoveDown => after.after_move_down(before),
        KeyCommand::DeleteQueryChar => after.after_query_edit(
            before,
            if before.query@.len() > 0 {
                before.query@.drop_last()
            } else {
                before.query@
            },
        ),
        KeyCommand::DeleteEntry => after_delete_key(after, before, removed),
        KeyCommand::Type(c) => after.after_query_edit(before, before.query@.push(c)),
        KeyCommand::Ignore => after == before,
    }
}

/// Handles one key press. A deleted entry is returned with its index: the
/// caller writes the remaining entries out and settles the deletion with
/// `finish_delete`.
pub fn handle_key(app: &mut App, key: KeyEvent) -> (removed: Option<(usize, HistoryEntry)>)
    requires
        key_command(key) == KeyCommand::MoveDown && old(app).entries@.len() > 0 ==> old(
            app,
        ).selected < usize::MAX && old(app).scroll_offset + old(app).viewport_height
            <= usize::MAX,
        key_command(key) == KeyCommand::DeleteEntry && old(app).entries@.len() > 1 ==> old(
            app,
        ).scroll_offset + old(app).viewport_height <= usize::MAX,
    ensures
        key_handled(*final(app), *old(app), key, removed),
{
    match command_for_key(key) {
        KeyCommand::Accept => {
            app.accept_selected();
            None
        },
        KeyCommand::Cancel => {
            app.cancel();
            None
        },
        KeyCommand::MoveUp => {
            app.move_up();
            None
        },
        KeyCommand::MoveDown => {
            app.move_down();
            None
        },
        KeyCommand::DeleteQueryChar => {
            app.pop_search_char();
            None
        },
        KeyCommand::DeleteEntry => delete_selected(app),
        KeyCommand::Type(c) => {
            app.push_search_char(c);
            None
        },
        KeyCommand::Ignore => None,
    }
}

/// When writing out the entries fails after a deletion, settling the
/// deletion gives back the entries as they were before it, with the same
/// query, and shows the error.
pub proof fn law_failed_write_keeps_history(
    before: App,
    deleted: App,
    after: App,
    index: usize,
    removed: HistoryEntry,
    error: Seq<char>,
)
    requires
        after_delete_key(deleted, before, Some((index, removed))),
        exists|restored: App|
            #[trigger] restored.after_restore(deleted, index, removed) && after.after_error(
                restored,
                error,
            ),
    ensures
        after.entries@ == before.entries@,
        after.query == before.query,
        after.source == before.source,
        after.status matches Some(message) && message@ == "error: "@ + error,
{
    let restored = choose|restored: App|
        #[trigger] restored.after_restore(deleted, index, removed) && after.after_error(
            restored,
            error,
        );
    law_restore_undoes_delete(before, deleted, restored, index, removed);
}

/// The key bindings: Up and Ctrl-P move the selection one step up (never
/// down), Down and Ctrl-N one visible entry down (staying on the last one),
/// Enter answers with the selected visible command and quits, Esc and
/// Ctrl-C quit without an answer, Backspace drops the query's last
/// character, and a character typed without Control is appended to the
/// query; none of these deletes an entry.
pub proof fn law_key_bindings(
    before: App,
    after: App,
    key: KeyEvent,
    removed: Option<(usize, HistoryEntry)>,
)
    requires
        key_handled(after, before, key, removed),
    ensures
        key.code == KeyCode::Up || (key.code == KeyCode::Char('p') && key.control) ==> {
            &&& after.selected == if before.selected > 0 {
                before.selected - 1
            } else {
                0
            }
            &&& after.selected <= before.selected
            &&& after.entries == before.entries
            &&& after.query == before.query
            &&& removed is None
        },
        key.code == KeyCode::Down || (key.code == KeyCode::Char('n') && key.control) ==> {
            &&& before.visible().len() == 0 ==> after.selected == before.selected
            &&& before.selected + 1 < before.visible().len() ==> after.selected == before.selected
                + 1
            &&& before.visible().len() > 0 ==> after.selected < before.visible().len()
            &&& after.entries == before.entries
            &&& after.query == before.query
            &&& removed is None
        },
        key.code == KeyCode::Enter ==> {
            &&& after.should_quit
            &&& before.selected < before.visible().len() ==> after.accepted_command == Some(
                before.entries@[before.visible()[before.selected as int] as int].command,
            )
            &&& before.selected >= before.visible().len() ==> after.accepted_command is None
            &&& after.entries == before.entries
            &&& removed is None
        },
        key.code == KeyCode::Esc || (key.code == KeyCode::Char('c') && key.control) ==> {
            &&& after.should_quit
            &&& after.accepted_command is None
            &&& after.entries == before.entries
            &&& removed is None
        },
        key.code == KeyCode::Backspace ==> {
            &&& before.query@.len() > 0 ==> after.query@ == before.query@.drop_last()
            &&& before.query@.len() == 0 ==> after.query@.len() == 0
            &&& after.entries == before.entries
            &&& removed is None
        },
        !key.control ==> (key.code matches KeyCode::Char(c) ==> {
            &&& after.query@ == before.query@.push(c)
            &&& after.selected == 0
            &&& after.entries == before.entries
            &&& removed is None
        }),
        key.code == KeyCode::Other ==> after == before && removed is None,
{
}

} // verus!
