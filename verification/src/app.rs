//! The picker's state: the history entries, the filter query, the
//! selection and scroll position, and what the user chose.
use vstd::prelude::*;
use vstd::string::*;
use crate::history::{
    entry_views, law_parsed_entries_are_lines, law_zsh_extended_command, parsed_history, HistoryEntry,
    HistorySource, ShellKind,
};
use crate::text::{chars_of, contains_chars, contains_seq, lowercase, to_lowercase};

verus! {

/// A command matches a query when, both lowercased, the query is empty or
/// occurs in the command.
pub open spec fn lowered_match(command_lower: Seq<char>, query_lower: Seq<char>) -> bool {
    query_lower.len() == 0 || contains_seq(command_lower, query_lower)
}

/// A command matches a query, case-insensitively.
pub open spec fn entry_matches(command: Seq<char>, query: Seq<char>) -> bool {
    lowered_match(lowercase(command), lowercase(query))
}

/// The positions at which `flags` is set, in increasing order.
pub open spec fn set_positions(flags: Seq<bool>) -> Seq<usize>
    decreases flags.len(),
{
    if flags.len() == 0 {
        seq![]
    } else {
        let rest = set_positions(flags.drop_last());
        if flags.last() {
            rest.push((flags.len() - 1) as usize)
        } else {
            rest
        }
    }
}

/// Which entries match the query, entry by entry.
pub open spec fn match_flags(entries: Seq<HistoryEntry>, query: Seq<char>) -> Seq<bool> {
    Seq::new(entries.len(), |i: int| entry_matches(entries[i].command@, query))
}

/// The indices of the entries that match the query, in order.
pub open spec fn visible_of(entries: Seq<HistoryEntry>, query: Seq<char>) -> Seq<usize> {
    set_positions(match_flags(entries, query))
}

/// `set_positions` lists exactly the set positions, each once, in
/// increasing order.
pub proof fn lemma_set_positions(flags: Seq<bool>)
    requires
        flags.len() <= usize::MAX,
    ensures
        forall|k: int|
            0 <= k < set_positions(flags).len() ==> (#[trigger] set_positions(flags)[k]) < flags.len()
                && flags[set_positions(flags)[k] as int],
        forall|k: int, l: int|
            0 <= k < l < set_positions(flags).len() ==> #[trigger] set_positions(flags)[k]
                < #[trigger] set_positions(flags)[l],
        forall|j: int|
            0 <= j < flags.len() && #[trigger] flags[j] ==> set_positions(flags).contains(
                j as usize,
            ),
        set_positions(flags).len() <= flags.len(),
    decreases flags.len(),
{
    if flags.len() > 0 {
        let init = flags.drop_last();
        lemma_set_positions(init);
        let rest = set_positions(init);
        assert forall|j: int| 0 <= j < flags.len() && #[trigger] flags[j] implies set_positions(
            flags,
        ).contains(j as usize) by {
            if j < flags.len() - 1 {
                assert(init[j] == flags[j]);
                let k = choose|k: int| 0 <= k < rest.len() && rest[k] == j as usize;
                assert(set_positions(flags)[k] == j as usize);
            } else {
                assert(set_positions(flags)[set_positions(flags).len() - 1] == j as usize);
            }
        }
        assert forall|k: int|
            0 <= k < set_positions(flags).len() implies (#[trigger] set_positions(flags)[k])
            < flags.len() && flags[set_positions(flags)[k] as int] by {
            if k < rest.len() {
                assert(set_positions(flags)[k] == rest[k]);
                assert(init[rest[k] as int] == flags[rest[k] as int]);
            }
        }
    }
}

/// A selection moved one step up (saturating at zero).
pub open spec fn moved_up(selected: int) -> int {
    if selected > 0 {
        selected - 1
    } else {
        0
    }
}

/// A selection moved one step down within `visible_len` entries.
pub open spec fn moved_down(selected: int, visible_len: int) -> int {
    if visible_len > 0 {
        if selected + 1 < visible_len - 1 {
            selected + 1
        } else {
            visible_len - 1
        }
    } else {
        selected
    }
}

/// The scroll offset once a selection above the viewport is brought into it.
pub open spec fn scrolled_up(selected: int, scroll: int) -> int {
    if selected < scroll {
        selected
    } else {
        scroll
    }
}

/// The scroll offset once a selection below the viewport is brought into it.
pub open spec fn scrolled_down(selected: int, scroll: int, height: int, visible_len: int) -> int {
    if visible_len > 0 && selected >= scroll + height {
        selected - height + 1
    } else {
        scroll
    }
}

/// The selection after the visible entries changed to `visible_len`.
pub open spec fn clamped_selection(selected: int, visible_len: int) -> int {
    if visible_len == 0 {
        0
    } else if selected < visible_len - 1 {
        selected
    } else {
        visible_len - 1
    }
}

/// The scroll offset after the visible entries changed to `visible_len`.
pub open spec fn clamped_scroll(selected: int, scroll: int, height: int, visible_len: int) -> int {
    if visible_len == 0 {
        0
    } else {
        let s = clamped_selection(selected, visible_len);
        scrolled_down(s, scrolled_up(s, scroll), height, visible_len)
    }
}

/// The picker's state.
pub struct App {
    pub source: HistorySource,
    pub entries: Vec<HistoryEntry>,
    pub query: String,
    pub selected: usize,
    pub should_quit: bool,
    pub status: Option<String>,
    pub accepted_command: Option<String>,
    pub scroll_offset: usize,
    pub viewport_height: usize,
}

/// Whether an entry's lowercased command matches the lowercased query.
pub fn matches_lowered(command_lower: &[char], query_lower: &[char]) -> (matched: bool)
    ensures
        matched == lowered_match(command_lower@, query_lower@),
{
    query_lower.len() == 0 || contains_chars(command_lower, query_lower)
}

impl App {
    /// The indices of the entries that match the query, in order.
    pub open spec fn visible(self) -> Seq<usize> {
        visible_of(self.entries@, self.query@)
    }

    /// Everything but the selection, the scroll offset and the status
    /// message is the same in both states.
    pub open spec fn same_content(self, other: App) -> bool {
        &&& self.source == other.source
        &&& self.entries == other.entries
        &&& self.query == other.query
        &&& self.should_quit == other.should_quit
        &&& self.accepted_command == other.accepted_command
        &&& self.viewport_height == other.viewport_height
    }

    /// Everything but the answer and the quit flag is the same in both
    /// states.
    pub open spec fn same_view(self, other: App) -> bool {
        &&& self.source == other.source
        &&& self.entries == other.entries
        &&& self.query == other.query
        &&& self.selected == other.selected
        &&& self.status == other.status
        &&& self.scroll_offset == other.scroll_offset
        &&& self.viewport_height == other.viewport_height
    }

    /// The selection lies in the viewport.
    pub open spec fn selection_on_screen(self) -> bool {
        self.scroll_offset <= self.selected < self.scroll_offset + self.viewport_height
    }

    /// `self` is `before` with the selection moved one step up, scrolled
    /// into view, and the status message cleared.
    pub open spec fn after_move_up(self, before: App) -> bool {
        &&& self.selected == moved_up(before.selected as int)
        &&& self.scroll_offset == scrolled_up(self.selected as int, before.scroll_offset as int)
        &&& self.status is None
        &&& self.same_content(before)
    }

    /// `self` is `before` with the selection moved one visible entry down,
    /// scrolled into view, and the status message cleared.
    pub open spec fn after_move_down(self, before: App) -> bool {
        let n = before.visible().len() as int;
        &&& self.selected == moved_down(before.selected as int, n)
        &&& self.scroll_offset == scrolled_down(
            self.selected as int,
            before.scroll_offset as int,
            before.viewport_height as int,
            n,
        )
        &&& self.status is None
        &&& self.same_content(before)
    }

    /// `self` is `before` with the given query, the first entry selected,
    /// the list scrolled to the top and the status message cleared.
    pub open spec fn after_query_edit(self, before: App, query: Seq<char>) -> bool {
        &&& self.query@ == query
        &&& self.selected == 0
        &&& self.scroll_offset == 0
        &&& self.status is None
        &&& self.source == before.source
        &&& self.entries == before.entries
        &&& self.should_quit == before.should_quit
        &&& self.accepted_command == before.accepted_command
        &&& self.viewport_height == before.viewport_height
    }

    /// `self` is `before` once the selected command is taken as the answer
    /// (none when no visible entry is selected) and quitting is asked for.
    pub open spec fn after_accept(self, before: App) -> bool {
        &&& self.accepted_command == if before.selected < before.visible().len() {
            Some(before.entries@[before.visible()[before.selected as int] as int].command)
        } else {
            None::<String>
        }
        &&& self.should_quit
        &&& self.same_view(before)
    }

    /// `self` is `before` once quitting without an answer is asked for.
    pub open spec fn after_cancel(self, before: App) -> bool {
        &&& self.accepted_command is None
        &&& self.should_quit
        &&& self.same_view(before)
    }

    /// `self` is `before` with the selection kept within the entries that
    /// `entries` leaves visible, these entries in place, and the given
    /// status message.
    pub open spec fn after_reclamp(
        self,
        before: App,
        entries: Seq<HistoryEntry>,
        status: Option<String>,
    ) -> bool {
        let n = visible_of(entries, before.query@).len() as int;
        &&& self.entries@ == entries
        &&& self.selected == clamped_selection(before.selected as int, n)
        &&& self.scroll_offset == clamped_scroll(
            before.selected as int,
            before.scroll_offset as int,
            before.viewport_height as int,
            n,
        )
        &&& self.status == status
        &&& self.source == before.source
        &&& self.query == before.query
        &&& self.should_quit == before.should_quit
        &&& self.accepted_command == before.accepted_command
        &&& self.viewport_height == before.viewport_height
    }

    /// `self` and `removed` are what deleting the selected entry of `before`
    /// gives: the selected visible entry, with its index, is removed and the
    /// selection kept within the visible entries; when no visible entry is
    /// selected nothing changes and nothing is removed.
    pub open spec fn after_delete(self, before: App, removed: Option<(usize, HistoryEntry)>) -> bool {
        if before.selected < before.visible().len() {
            let index = before.visible()[before.selected as int];
            &&& removed == Some((index, before.entries@[index as int]))
            &&& self.after_reclamp(
                before,
                before.entries@.remove(index as int),
                self.status,
            )
            &&& self.status matches Some(message) && message@ == "deleted selected command"@
        } else {
            removed is None && self == before
        }
    }

    /// `self` is `before` with `entry` put back at `index` (at the end when
    /// the index is past it) and the selection kept within the visible
    /// entries.
    pub open spec fn after_restore(self, before: App, index: usize, entry: HistoryEntry) -> bool {
        self.after_reclamp(
            before,
            before.entries@.insert(
                restore_position(index as int, before.entries@.len() as int),
                entry,
            ),
            before.status,
        )
    }

    /// `self` is `before` with the status message `error: <error>`.
    pub open spec fn after_error(self, before: App, error: Seq<char>) -> bool {
        &&& self.status matches Some(message) && message@ == "error: "@ + error
        &&& self.source == before.source
        &&& self.entries == before.entries
        &&& self.query == before.query
        &&& self.selected == before.selected
        &&& self.should_quit == before.should_quit
        &&& self.accepted_command == before.accepted_command
        &&& self.scroll_offset == before.scroll_offset
        &&& self.viewport_height == before.viewport_height
    }

    /// A picker over the given entries, with an empty query and the first
    /// entry selected.
    pub fn new(source: HistorySource, entries: Vec<HistoryEntry>) -> (app: App)
        ensures
            app.source == source,
            app.entries == entries,
            app.query@ == Seq::<char>::empty(),
            app.selected == 0,
            !app.should_quit,
            app.status is None,
            app.accepted_command is None,
            app.scroll_offset == 0,
            app.viewport_height == 10,
    {
        App {
            source,
            entries,
            query: String::new(),
            selected: 0,
            should_quit: false,
            status: None,
            accepted_command: None,
            scroll_offset: 0,
            viewport_height: 10,
        }
    }

    fn compute_visible_indices(&self) -> (indices: Vec<usize>)
        ensures
            indices@ == self.visible(),
            self.query@.len() == 0 ==> indices@ == Seq::new(
                self.entries@.len(),
                |i: int| i as usize,
            ),
    {
        let query_lower = chars_of(to_lowercase(self.query.as_str()).as_str());
        proof {
            assert(self.entries@.len() == self.entries.len());
            law_empty_query_shows_all(self.entries@, self.query@);
        }
        let ghost flags = match_flags(self.entries@, self.query@);
        let mut indices: Vec<usize> = Vec::new();
        let mut i: usize = 0;
        while i < self.entries.len()
            invariant
                i <= self.entries@.len(),
                flags == match_flags(self.entries@, self.query@),
                query_lower@ == lowercase(self.query@),
                indices@ == set_positions(flags.take(i as int)),
            decreases self.entries@.len() - i,
        {
            let command_lower = chars_of(to_lowercase(self.entries[i].command.as_str()).as_str());
            assert(flags.take(i + 1).drop_last() =~= flags.take(i as int));
            assert(flags.take(i + 1).last() == flags[i as int]);
            if matches_lowered(command_lower.as_slice(), query_lower.as_slice()) {
                indices.push(i);
            }
            i = i + 1;
        }
        assert(flags.take(self.entries@.len() as int) =~= flags);
        indices
    }

    /// The indices of the entries whose command contains the query, ignoring
    /// case; all of them when the query is empty.
    pub fn visible_indices(&self) -> (indices: Vec<usize>)
        ensures
            indices@ == self.visible(),
            self.query@.len() == 0 ==> indices@ == Seq::new(
                self.entries@.len(),
                |i: int| i as usize,
            ),
    {
        self.compute_visible_indices()
    }

    /// Sets the number of list rows on screen; a zero height is ignored.
    pub fn set_viewport_height(&mut self, height: usize)
        ensures
            final(self).viewport_height == if height > 0 {
                height
            } else {
                old(self).viewport_height
            },
            final(self).source == old(self).source,
            final(self).entries == old(self).entries,
            final(self).query == old(self).query,
            final(self).selected == old(self).selected,
            final(self).should_quit == old(self).should_quit,
            final(self).status == old(self).status,
            final(self).accepted_command == old(self).accepted_command,
            final(self).scroll_offset == old(self).scroll_offset,
    {
        if height > 0 {
            self.viewport_height = height;
        }
    }

    /// The index of the selected entry, if the selection is on a visible
    /// entry.
    pub fn selected_entry_index(&self) -> (index: Option<usize>)
        ensures
            index == if self.selected < self.visible().len() {
                Some(self.visible()[self.selected as int])
            } else {
                None::<usize>
            },
    {
        let visible = self.visible_indices();
        if self.selected < visible.len() {
            Some(visible[self.selected])
        } else {
            None
        }
    }

    fn adjust_scroll_up(&mut self)
        ensures
            final(self).scroll_offset == scrolled_up(
                old(self).selected as int,
                old(self).scroll_offset as int,
            ),
            final(self).selected == old(self).selected,
            final(self).status == old(self).status,
            final(self).same_content(*old(self)),
    {
        if self.selected < self.scroll_offset {
            self.scroll_offset = self.selected;
        }
    }

    fn adjust_scroll_down(&mut self, visible_len: usize)
        requires
            visible_len > 0 ==> old(self).scroll_offset + old(self).viewport_height <= usize::MAX,
            visible_len > 0 ==> old(self).selected < visible_len,
        ensures
            final(self).scroll_offset == scrolled_down(
                old(self).selected as int,
                old(self).scroll_offset as int,
                old(self).viewport_height as int,
                visible_len as int,
            ),
            final(self).selected == old(self).selected,
            final(self).status == old(self).status,
            final(self).same_content(*old(self)),
    {
        let height = self.viewport_height;
        if visible_len > 0 && self.selected >= self.scroll_offset + height {
            self.scroll_offset = self.selected - height + 1;
        }
    }

    /// Moves the selection one entry up, scrolls it into view and clears
    /// the status message.
    pub fn move_up(&mut self)
        ensures
            final(self).after_move_up(*old(self)),
            final(self).scroll_offset <= final(self).selected,
            old(self).selection_on_screen() ==> final(self).selection_on_screen(),
    {
        self.status = None;
        self.selected = if self.selected > 0 {
            self.selected - 1
        } else {
            0
        };
        self.adjust_scroll_up();
    }

    /// Moves the selection one visible entry down, keeping it on the last
    /// visible entry, scrolls it into view, and clears the status message.
    pub fn move_down(&mut self)
        requires
            old(self).entries@.len() > 0 ==> old(self).selected < usize::MAX,
            old(self).entries@.len() > 0 ==> old(self).scroll_offset + old(self).viewport_height <= usize::MAX,
        ensures
            final(self).after_move_down(*old(self)),
            old(self).visible().len() > 0 ==> final(self).selected < old(self).visible().len(),
            old(self).selection_on_screen() && old(self).selected < old(self).visible().len()
                ==> final(self).selection_on_screen(),
    {
        self.status = None;
        let visible_len = self.visible_indices().len();
        if visible_len > 0 {
            let next = self.selected + 1;
            self.selected = if next < visible_len - 1 {
                next
            } else {
                visible_len - 1
            };
        }
        self.adjust_scroll_down(visible_len);
    }

    /// Adds a character to the query, selects the first entry, scrolls to
    /// the top and clears the status message.
    pub fn push_search_char(&mut self, value: char)
        ensures
            final(self).after_query_edit(*old(self), old(self).query@.push(value)),
    {
        self.query.push(value);
        self.selected = 0;
        self.scroll_offset = 0;
        self.status = None;
    }

    /// Removes the last character of the query, if any, selects the first
    /// entry, scrolls to the top and clears the status message.
    pub fn pop_search_char(&mut self)
        ensures
            final(self).after_query_edit(
                *old(self),
                if old(self).query@.len() > 0 {
                    old(self).query@.drop_last()
                } else {
                    old(self).query@
                },
            ),
    {
        self.query.pop();
        self.selected = 0;
        self.scroll_offset = 0;
        self.status = None;
    }

    /// Takes the selected entry's command as the answer, or none when no
    /// visible entry is selected, and asks to quit.
    pub fn accept_selected(&mut self)
        ensures
            final(self).after_accept(*old(self)),
    {
        proof {
            assert(self.entries@.len() == self.entries.len());
            lemma_set_positions(match_flags(self.entries@, self.query@));
        }
        self.accepted_command = match self.selected_entry_index() {
            Some(index) => Some(self.entries[index].command.clone()),
            None => None,
        };
        self.should_quit = true;
    }

    /// Quits without an answer.
    pub fn cancel(&mut self)
        ensures
            final(self).after_cancel(*old(self)),
    {
        self.accepted_command = None;
        self.should_quit = true;
    }

    fn clamp_selection(&mut self)
        requires
            old(self).entries@.len() > 0 ==> old(self).scroll_offset + old(self).viewport_height <= usize::MAX,
        ensures
            final(self).after_reclamp(*old(self), old(self).entries@, old(self).status),
    {
        let visible_len = self.visible_indices().len();
        if visible_len == 0 {
            self.selected = 0;
            self.scroll_offset = 0;
        } else {
            self.selected = if self.selected < visible_len - 1 {
                self.selected
            } else {
                visible_len - 1
            };
            self.adjust_scroll_up();
            self.adjust_scroll_down(visible_len);
        }
    }

    /// Removes the selected visible entry and returns its index in the
    /// entries together with the entry; the selection is then kept within
    /// the visible entries. Changes nothing and returns nothing when no
    /// visible entry is selected.
    pub fn delete_selected(&mut self) -> (removed: Option<(usize, HistoryEntry)>)
        requires
            old(self).entries@.len() > 1 ==> old(self).scroll_offset + old(self).viewport_height <= usize::MAX,
        ensures
            final(self).after_delete(*old(self), removed),
    {
        proof {
            assert(self.entries@.len() == self.entries.len());
            lemma_set_positions(match_flags(self.entries@, self.query@));
        }
        let entry_index = match self.selected_entry_index() {
            Some(index) => index,
            None => return None,
        };
        let removed = self.entries.remove(entry_index);
        self.clamp_selection();
        self.status = Some(String::from_str("deleted selected command"));
        Some((entry_index, removed))
    }

    /// Puts an entry back at the given index (at the end when the index is
    /// past it); the selection is then kept within the visible entries.
    pub fn restore_entry(&mut self, index: usize, entry: HistoryEntry)
        requires
            old(self).scroll_offset + old(self).viewport_height <= usize::MAX,
        ensures
            final(self).after_restore(*old(self), index, entry),
    {
        let index = if index < self.entries.len() {
            index
        } else {
            self.entries.len()
        };
        self.entries.insert(index, entry);
        self.clamp_selection();
    }

    /// Shows an error message in the status bar.
    pub fn set_error(&mut self, error: &str)
        ensures
            final(self).after_error(*old(self), error@),
    {
        let mut message = String::from_str("error: ");
        message.append(error);
        self.status = Some(message);
    }
}

/// Where `restore_entry` puts an entry back: at the index, or at the end
/// when the index is past it.
pub open spec fn restore_position(index: int, len: int) -> int {
    if index < len {
        index
    } else {
        len
    }
}

/// The visible entries are exactly the entries that match the query, each
/// listed once, in the order of the history.
pub proof fn law_visible_entries(entries: Seq<HistoryEntry>, query: Seq<char>)
    requires
        entries.len() <= usize::MAX,
    ensures
        forall|k: int|
            0 <= k < visible_of(entries, query).len() ==> (#[trigger] visible_of(entries, query)[k])
                < entries.len() && entry_matches(
                entries[visible_of(entries, query)[k] as int].command@,
                query,
            ),
        forall|k: int, l: int|
            0 <= k < l < visible_of(entries, query).len() ==> #[trigger] visible_of(
                entries,
                query,
            )[k] < #[trigger] visible_of(entries, query)[l],
        forall|j: int|
            0 <= j < entries.len() && entry_matches(#[trigger] entries[j].command@, query)
                ==> visible_of(entries, query).contains(j as usize),
{
    let flags = match_flags(entries, query);
    lemma_set_positions(flags);
    assert forall|j: int|
        0 <= j < entries.len() && entry_matches(#[trigger] entries[j].command@, query) implies visible_of(
        entries,
        query,
    ).contains(j as usize) by {
        assert(flags[j]);
    }
}

/// When the query lowercases to nothing, every entry is visible, in order.
pub proof fn law_empty_query_shows_all(entries: Seq<HistoryEntry>, query: Seq<char>)
    requires
        entries.len() <= usize::MAX,
    ensures
        lowercase(query).len() == 0 ==> visible_of(entries, query) == Seq::new(
            entries.len(),
            |i: int| i as usize,
        ),
    decreases entries.len(),
{
    if lowercase(query).len() == 0 && entries.len() > 0 {
        let init = entries.drop_last();
        law_empty_query_shows_all(init, query);
        assert(match_flags(entries, query).drop_last() =~= match_flags(init, query));
        assert(match_flags(entries, query).last());
    }
    if lowercase(query).len() == 0 {
        assert(visible_of(entries, query) =~= Seq::new(entries.len(), |i: int| i as usize));
    }
}

/// Putting a deleted entry back at the index that the deletion reported
/// gives back the entries as they were before the deletion, with the same
/// query.
pub proof fn law_restore_undoes_delete(
    before: App,
    deleted: App,
    restored: App,
    index: usize,
    entry: HistoryEntry,
)
    requires
        deleted.after_delete(before, Some((index, entry))),
        restored.after_restore(deleted, index, entry),
    ensures
        restored.entries@ == before.entries@,
        restored.query == before.query,
        restored.source == before.source,
{
    assert(before.entries@.len() <= usize::MAX) by {
        assert(before.entries@.len() == before.entries.len());
    }
    lemma_set_positions(match_flags(before.entries@, before.query@));
    assert(before.selected < before.visible().len());
    assert(index < before.entries@.len());
    assert(before.entries@.remove(index as int).insert(index as int, entry) =~= before.entries@);
}

/// Once the selection is kept within the visible entries, it lies on a
/// visible entry (or at the top when none is visible) and within the
/// viewport, for any viewport of at least one row.
pub proof fn law_reclamped_selection_on_screen(
    selected: int,
    scroll: int,
    height: int,
    visible_len: int,
)
    requires
        height >= 1,
        visible_len >= 0,
        selected >= 0,
    ensures
        visible_len > 0 ==> 0 <= clamped_selection(selected, visible_len) < visible_len,
        visible_len == 0 ==> clamped_selection(selected, visible_len) == 0,
        clamped_scroll(selected, scroll, height, visible_len) <= clamped_selection(
            selected,
            visible_len,
        ) < clamped_scroll(selected, scroll, height, visible_len) + height,
{
}

/// Typing a character and then deleting the last one gives back the query
/// as it was.
pub proof fn law_backspace_undoes_typing(before: App, typed: App, erased: App, c: char)
    requires
        typed.after_query_edit(before, before.query@.push(c)),
        erased.after_query_edit(
            typed,
            if typed.query@.len() > 0 {
                typed.query@.drop_last()
            } else {
                typed.query@
            },
        ),
    ensures
        erased.query@ == before.query@,
        erased.entries == before.entries,
{
    assert(before.query@.push(c).drop_last() =~= before.query@);
}

/// Accepting takes the selected visible entry's command as the answer,
/// never its raw line: for a zsh history whose selected line is
/// `: <header>;<command>` (no `;` in the header), the answer is exactly
/// `<command>`.
pub proof fn law_accept_zsh_extended(
    before: App,
    after: App,
    contents: Seq<char>,
    header: Seq<char>,
    command: Seq<char>,
)
    requires
        entry_views(before.entries@) == parsed_history(ShellKind::Zsh, contents),
        before.selected < before.visible().len(),
        before.entries@[before.visible()[before.selected as int] as int].raw_line@ == seq![
            ':',
            ' ',
        ] + header + seq![';'] + command,
        !header.contains(';'),
        after.after_accept(before),
    ensures
        after.accepted_command matches Some(answer) && answer@ == command,
        after.accepted_command == Some(
            before.entries@[before.visible()[before.selected as int] as int].command,
        ),
        after.should_quit,
{
    assert(before.entries@.len() <= usize::MAX) by {
        assert(before.entries@.len() == before.entries.len());
    }
    law_visible_entries(before.entries@, before.query@);
    let i = before.visible()[before.selected as int] as int;
    assert(0 <= i < before.entries@.len());
    law_parsed_entries_are_lines(ShellKind::Zsh, contents);
    assert(entry_views(before.entries@)[i] == before.entries@[i]@);
    law_zsh_extended_command(header, command);
}

/// An entry is visible exactly when the query lowercases to nothing or its
/// lowercased form occurs in the entry's lowercased command: a command that
/// merely occurs in the query does not match.
pub proof fn law_visible_iff_query_in_command(entries: Seq<HistoryEntry>, query: Seq<char>)
    requires
        entries.len() <= usize::MAX,
    ensures
        forall|j: int|
            0 <= j < entries.len() ==> (#[trigger] visible_of(entries, query).contains(j as usize)
                <==> (lowercase(query).len() == 0 || contains_seq(
                lowercase(entries[j].command@),
                lowercase(query),
            ))),
{
    let flags = match_flags(entries, query);
    lemma_set_positions(flags);
    assert forall|j: int| 0 <= j < entries.len() implies (#[trigger] visible_of(
        entries,
        query,
    ).contains(j as usize) <==> (lowercase(query).len() == 0 || contains_seq(
        lowercase(entries[j].command@),
        lowercase(query),
    ))) by {
        assert(flags[j] == entry_matches(entries[j].command@, query));
        if visible_of(entries, query).contains(j as usize) {
            let k = choose|k: int|
                0 <= k < visible_of(entries, query).len() && visible_of(entries, query)[k] == j
                    as usize;
            assert(flags[visible_of(entries, query)[k] as int]);
        }
    }
}

} // verus!
