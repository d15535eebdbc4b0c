//! What the picker shows: the highlighted parts of a command, the list
//! window and the status line.
use vstd::prelude::*;
use vstd::string::*;
use crate::app::App;
use crate::history::ShellKind;
use crate::text::{
    char_lowercase, char_to_lowercase, chars_of, contains_seq, decimal, find_from, first_occurrence,
    lemma_first_occurrence, lowercase, occurs_at, push_decimal, to_lowercase,
};

verus! {

/// The number of bytes of a character in UTF-8.
pub open spec fn utf8_len(c: char) -> nat {
    let v = c as u32;
    if v <= 0x7f {
        1
    } else if v <= 0x7ff {
        2
    } else if v <= 0xffff {
        3
    } else {
        4
    }
}

/// The number of bytes of a text in UTF-8.
pub open spec fn byte_len(s: Seq<char>) -> nat
    decreases s.len(),
{
    if s.len() == 0 {
        0
    } else {
        byte_len(s.drop_last()) + utf8_len(s.last())
    }
}

/// A text lowercased character by character (`char::to_lowercase`).
pub open spec fn folded_chars(s: Seq<char>) -> Seq<char>
    decreases s.len(),
{
    if s.len() == 0 {
        seq![]
    } else {
        folded_chars(s.drop_last()) + char_lowercase(s.last())
    }
}

/// For each character of `folded_chars(s)`, the byte offset in `s` of the
/// character it comes from.
pub open spec fn folded_starts(s: Seq<char>) -> Seq<usize>
    decreases s.len(),
{
    if s.len() == 0 {
        seq![]
    } else {
        folded_starts(s.drop_last()) + Seq::new(
            char_lowercase(s.last()).len(),
            |j: int| byte_len(s.drop_last()) as usize,
        )
    }
}

/// For each character of `folded_chars(s)`, the byte offset in `s` just
/// after the character it comes from.
pub open spec fn folded_ends(s: Seq<char>) -> Seq<usize>
    decreases s.len(),
{
    if s.len() == 0 {
        seq![]
    } else {
        folded_ends(s.drop_last()) + Seq::new(
            char_lowercase(s.last()).len(),
            |j: int| byte_len(s) as usize,
        )
    }
}

/// The three folded sequences are equally long.
pub proof fn lemma_folded_lengths(s: Seq<char>)
    ensures
        folded_starts(s).len() == folded_chars(s).len(),
        folded_ends(s).len() == folded_chars(s).len(),
    decreases s.len(),
{
    if s.len() > 0 {
        lemma_folded_lengths(s.drop_last());
    }
}

/// The bytes of a prefix are at most those of the whole text.
pub proof fn lemma_byte_len_prefix(s: Seq<char>, i: int)
    requires
        0 <= i <= s.len(),
    ensures
        byte_len(s.take(i)) <= byte_len(s),
    decreases s.len(),
{
    if i < s.len() {
        assert(s.take(i) =~= s.drop_last().take(i));
        lemma_byte_len_prefix(s.drop_last(), i);
    } else {
        assert(s.take(i) =~= s);
    }
}

/// The number of bytes of a character in UTF-8.
pub fn char_utf8_len(c: char) -> (len: usize)
    ensures
        len == utf8_len(c),
{
    let v = c as u32;
    if v <= 0x7f {
        1
    } else if v <= 0x7ff {
        2
    } else if v <= 0xffff {
        3
    } else {
        4
    }
}

/// A text lowercased character by character, with, for each lowercased
/// character, the byte range in the text of the character it comes from.
pub fn lowercase_with_original_offsets(value: &str) -> (folded: (Vec<char>, Vec<usize>, Vec<usize>))
    requires
        byte_len(value@) <= usize::MAX,
    ensures
        folded.0@ == folded_chars(value@),
        folded.1@ == folded_starts(value@),
        folded.2@ == folded_ends(value@),
{
    let chars = chars_of(value);
    let ghost s = chars@;
    let mut lowered: Vec<char> = Vec::new();
    let mut start_map: Vec<usize> = Vec::new();
    let mut end_map: Vec<usize> = Vec::new();
    let mut offset: usize = 0;
    let mut i: usize = 0;
    while i < chars.len()
        invariant
            s == chars@,
            s == value@,
            byte_len(s) <= usize::MAX,
            i <= s.len(),
            offset == byte_len(s.take(i as int)),
            lowered@ == folded_chars(s.take(i as int)),
            start_map@ == folded_starts(s.take(i as int)),
            end_map@ == folded_ends(s.take(i as int)),
        decreases s.len() - i,
    {
        let c = chars[i];
        let ghost prefix = s.take(i as int);
        let ghost next = s.take(i + 1);
        assert(next.drop_last() =~= prefix);
        assert(next.last() == c);
        proof {
            lemma_byte_len_prefix(s, i + 1);
        }
        let end = offset + char_utf8_len(c);
        let mapped = char_to_lowercase(c);
        let mut j: usize = 0;
        while j < mapped.len()
            invariant
                j <= mapped@.len(),
                mapped@ == char_lowercase(c),
                lowered@ == folded_chars(prefix) + mapped@.take(j as int),
                start_map@ == folded_starts(prefix) + Seq::new(j as nat, |t: int| offset),
                end_map@ == folded_ends(prefix) + Seq::new(j as nat, |t: int| end),
            decreases mapped@.len() - j,
        {
            lowered.push(mapped[j]);
            start_map.push(offset);
            end_map.push(end);
            j = j + 1;
            assert(lowered@ =~= folded_chars(prefix) + mapped@.take(j as int));
            assert(start_map@ =~= folded_starts(prefix) + Seq::new(j as nat, |t: int| offset));
            assert(end_map@ =~= folded_ends(prefix) + Seq::new(j as nat, |t: int| end));
        }
        assert(mapped@.take(mapped@.len() as int) =~= mapped@);
        assert(byte_len(next) == byte_len(prefix) + utf8_len(c));
        assert(Seq::new(mapped@.len(), |t: int| offset) =~= Seq::new(
            char_lowercase(next.last()).len(),
            |t: int| byte_len(next.drop_last()) as usize,
        ));
        assert(Seq::new(mapped@.len(), |t: int| end) =~= Seq::new(
            char_lowercase(next.last()).len(),
            |t: int| byte_len(next) as usize,
        ));
        offset = end;
        i = i + 1;
    }
    assert(s.take(s.len() as int) =~= s);
    (lowered, start_map, end_map)
}

/// A part of a command's text, by byte range, and whether it matches the
/// query.
#[derive(Clone, Copy, Debug, PartialEq, Eq, Structural)]
pub struct Segment {
    pub start: usize,
    pub end: usize,
    pub highlighted: bool,
}

/// A segment from `start` to `end`.
pub open spec fn segment(start: int, end: int, highlighted: bool) -> Segment {
    Segment { start: start as usize, end: end as usize, highlighted }
}

/// The positions in `lower` at and after `from` where the successive
/// non-overlapping occurrences of `query` begin, each the leftmost one after
/// the end of the one before.
pub open spec fn match_starts(lower: Seq<char>, query: Seq<char>, from: int) -> Seq<int>
    decreases lower.len() + 1 - from,
{
    if query.len() == 0 || from < 0 || from > lower.len() {
        seq![]
    } else {
        match first_occurrence(lower, query, from) {
            Some(k) => {
                proof {
                    lemma_first_occurrence(lower, query, from);
                }
                seq![k] + match_starts(lower, query, k + query.len())
            },
            None => seq![],
        }
    }
}

/// The byte ranges in the unfolded text of the occurrences listed by
/// `match_starts`.
pub open spec fn match_ranges(
    lower: Seq<char>,
    starts: Seq<usize>,
    ends: Seq<usize>,
    query: Seq<char>,
    from: int,
) -> Seq<(int, int)> {
    match_starts(lower, query, from).map_values(
        |k: int| (starts[k] as int, ends[k + query.len() - 1] as int),
    )
}

/// The segments that cover the text from `pos` to `len`: before each range
/// the text not yet covered, if any, then the range highlighted, and after
/// the last range the rest of the text, if any.
pub open spec fn fill_segments(ranges: Seq<(int, int)>, pos: int, len: int) -> Seq<Segment>
    decreases ranges.len(),
{
    if ranges.len() == 0 {
        if pos < len {
            seq![segment(pos, len, false)]
        } else {
            seq![]
        }
    } else {
        let (s, e) = ranges[0];
        (if s > pos {
            seq![segment(pos, s, false)]
        } else {
            seq![]
        }) + seq![segment(s, e, true)] + fill_segments(ranges.drop_first(), e, len)
    }
}

/// The segments of a command once lowercased character by character into
/// `lower` (with the byte ranges `starts` and `ends` of each lowercased
/// character) and searched for the lowercased query.
pub open spec fn folded_segments(
    lower: Seq<char>,
    starts: Seq<usize>,
    ends: Seq<usize>,
    query_lower: Seq<char>,
    len: int,
) -> Seq<Segment> {
    fill_segments(match_ranges(lower, starts, ends, query_lower, 0), 0, len)
}

/// How a command is shown for a query: plain (nothing) when the query is
/// empty or lowercases to nothing; else the segments of its case-insensitive
/// matches.
pub open spec fn command_segments(command: Seq<char>, query: Seq<char>) -> Option<Seq<Segment>> {
    if query.len() == 0 || lowercase(query).len() == 0 {
        None
    } else {
        Some(folded_segments(
            folded_chars(command),
            folded_starts(command),
            folded_ends(command),
            lowercase(query),
            byte_len(command) as int,
        ))
    }
}

/// The segments of a command that is lowercased character by character into
/// `lower`, searched for the non-empty lowercased query.
pub fn segments_for_folded(
    lower: &[char],
    starts: &[usize],
    ends: &[usize],
    query_lower: &[char],
    len: usize,
) -> (segments: Vec<Segment>)
    requires
        starts@.len() == lower@.len(),
        ends@.len() == lower@.len(),
        query_lower@.len() > 0,
    ensures
        segments@ == folded_segments(lower@, starts@, ends@, query_lower@, len as int),
{
    let ghost total = folded_segments(lower@, starts@, ends@, query_lower@, len as int);
    let mut segments: Vec<Segment> = Vec::new();
    let mut folded: usize = 0;
    let mut text_pos: usize = 0;
    loop
        invariant
            starts@.len() == lower@.len(),
            ends@.len() == lower@.len(),
            query_lower@.len() > 0,
            folded <= lower@.len(),
            total == folded_segments(lower@, starts@, ends@, query_lower@, len as int),
            segments@ + fill_segments(
                match_ranges(lower@, starts@, ends@, query_lower@, folded as int),
                text_pos as int,
                len as int,
            ) == total,
        decreases lower@.len() + 1 - folded,
    {
        let ghost ranges = match_ranges(lower@, starts@, ends@, query_lower@, folded as int);
        proof {
            lemma_first_occurrence(lower@, query_lower@, folded as int);
        }
        match find_from(lower, query_lower, folded) {
            None => {
                assert(match_starts(lower@, query_lower@, folded as int) =~= seq![]);
                assert(ranges =~= seq![]);
                if text_pos < len {
                    segments.push(Segment { start: text_pos, end: len, highlighted: false });
                    assert(segments@ =~= total);
                } else {
                    assert(segments@ + seq![] =~= segments@);
                }
                return segments;
            },
            Some(k) => {
                assert(occurs_at(lower@, query_lower@, k as int));
                assert(lower@.len() == lower.len());
                let folded_end = k + query_lower.len();
                let start = starts[k];
                let end = ends[folded_end - 1];
                let ghost rest = match_ranges(lower@, starts@, ends@, query_lower@, folded_end as int);
                assert(match_starts(lower@, query_lower@, folded as int) == seq![k as int]
                    + match_starts(lower@, query_lower@, folded_end as int));
                assert(ranges =~= seq![(start as int, end as int)] + rest);
                assert(ranges[0] == (start as int, end as int));
                assert(ranges.drop_first() =~= rest);
                let ghost before = segments@;
                if start > text_pos {
                    segments.push(Segment { start: text_pos, end: start, highlighted: false });
                }
                segments.push(Segment { start, end, highlighted: true });
                assert(fill_segments(ranges, text_pos as int, len as int) == (if start > text_pos {
                    seq![segment(text_pos as int, start as int, false)]
                } else {
                    seq![]
                }) + seq![segment(start as int, end as int, true)] + fill_segments(
                    rest,
                    end as int,
                    len as int,
                ));
                assert(segments@ + fill_segments(rest, end as int, len as int) =~= before
                    + fill_segments(ranges, text_pos as int, len as int));
                folded = folded_end;
                text_pos = end;
            },
        }
    }
}

/// Segments that cover the text from `from` to `to`, each starting where
/// the one before ends, none empty.
pub open spec fn tiles(segments: Seq<Segment>, from: int, to: int) -> bool
    decreases segments.len(),
{
    if segments.len() == 0 {
        from == to
    } else {
        &&& segments[0].start == from
        &&& segments[0].start < segments[0].end
        &&& tiles(segments.drop_first(), segments[0].end as int, to)
    }
}

/// Ranges that follow each other from `pos`, each non-empty, the last one
/// ending no later than `len`.
pub open spec fn ordered_ranges(ranges: Seq<(int, int)>, pos: int, len: int) -> bool
    decreases ranges.len(),
{
    if ranges.len() == 0 {
        pos <= len
    } else {
        &&& pos <= ranges[0].0
        &&& ranges[0].0 < ranges[0].1
        &&& ordered_ranges(ranges.drop_first(), ranges[0].1, len)
    }
}

/// Every character of the text lowercases to a single character.
pub open spec fn lowercases_one_to_one(s: Seq<char>) -> bool {
    forall|i: int| 0 <= i < s.len() ==> (#[trigger] char_lowercase(s[i])).len() == 1
}

/// A segment in front of others tiles when it starts the range and the
/// others tile the rest.
pub proof fn lemma_tiles_cons(x: Segment, rest: Seq<Segment>, from: int, to: int)
    ensures
        tiles(seq![x] + rest, from, to) == (x.start == from && x.start < x.end && tiles(
            rest,
            x.end as int,
            to,
        )),
{
    assert((seq![x] + rest).drop_first() =~= rest);
    assert((seq![x] + rest)[0] == x);
}

/// Prefix byte counts grow with each character.
pub proof fn lemma_byte_len_increasing(s: Seq<char>, i: int, j: int)
    requires
        0 <= i < j <= s.len(),
    ensures
        byte_len(s.take(i)) < byte_len(s.take(j)),
    decreases j,
{
    assert(s.take(j).drop_last() =~= s.take(j - 1));
    if i < j - 1 {
        lemma_byte_len_increasing(s, i, j - 1);
    }
}

/// When each character lowercases to one, the folded text is as long as the
/// text, and the maps give, at a position, the byte offsets before and after
/// the character there.
pub proof fn lemma_folded_one_to_one_at(s: Seq<char>, k: int)
    requires
        lowercases_one_to_one(s),
        byte_len(s) <= usize::MAX,
        0 <= k < s.len(),
    ensures
        folded_chars(s).len() == s.len(),
        folded_starts(s)[k] as int == byte_len(s.take(k)),
        folded_ends(s)[k] as int == byte_len(s.take(k + 1)),
    decreases s.len(),
{
    lemma_folded_lengths(s);
    let init = s.drop_last();
    assert forall|i: int| 0 <= i < init.len() implies (#[trigger] char_lowercase(
        init[i],
    )).len() == 1 by {
        assert(init[i] == s[i]);
    }
    assert(byte_len(init) <= byte_len(s));
    lemma_folded_lengths(init);
    assert(char_lowercase(s[s.len() - 1]).len() == 1);
    if init.len() > 0 {
        lemma_folded_one_to_one_at(init, 0);
    }
    assert(folded_chars(init).len() == init.len()) by {
        if init.len() == 0 {
        }
    }
    if k < init.len() {
        lemma_folded_one_to_one_at(init, k);
        assert(folded_starts(s)[k] == folded_starts(init)[k]);
        assert(folded_ends(s)[k] == folded_ends(init)[k]);
        assert(init.take(k) =~= s.take(k));
        assert(init.take(k + 1) =~= s.take(k + 1));
    } else {
        assert(s.take(k) =~= init);
        assert(s.take(k + 1) =~= s);
        assert(folded_starts(s)[k] == byte_len(init) as usize);
        assert(folded_ends(s)[k] == byte_len(s) as usize);
    }
}

/// The ranges of the successive matches follow each other, each non-empty,
/// within the text, when each character lowercases to one.
pub proof fn lemma_match_ranges_ordered(s: Seq<char>, query: Seq<char>, from: int, pos: int)
    requires
        lowercases_one_to_one(s),
        byte_len(s) <= usize::MAX,
        query.len() > 0,
        0 <= from <= s.len(),
        pos <= byte_len(s.take(from)),
    ensures
        ordered_ranges(
            match_ranges(folded_chars(s), folded_starts(s), folded_ends(s), query, from),
            pos,
            byte_len(s) as int,
        ),
    decreases s.len() + 1 - from,
{
    let lower = folded_chars(s);
    lemma_folded_lengths(s);
    if s.len() > 0 {
        lemma_folded_one_to_one_at(s, 0);
    }
    lemma_first_occurrence(lower, query, from);
    let ranges = match_ranges(lower, folded_starts(s), folded_ends(s), query, from);
    assert(s.take(s.len() as int) =~= s);
    match first_occurrence(lower, query, from) {
        None => {
            assert(match_starts(lower, query, from) =~= seq![]);
            assert(ranges =~= seq![]);
            if from < s.len() {
                lemma_byte_len_increasing(s, from, s.len() as int);
            }
        },
        Some(k) => {
            let end = k + query.len();
            let rest = match_ranges(lower, folded_starts(s), folded_ends(s), query, end);
            assert(match_starts(lower, query, from) == seq![k] + match_starts(lower, query, end));
            assert(ranges =~= seq![(folded_starts(s)[k] as int, folded_ends(s)[end - 1] as int)]
                + rest);
            lemma_folded_one_to_one_at(s, k);
            lemma_folded_one_to_one_at(s, end - 1);
            assert(ranges[0] == (byte_len(s.take(k)) as int, byte_len(s.take(end)) as int));
            assert(ranges.drop_first() =~= rest);
            if from < k {
                lemma_byte_len_increasing(s, from, k);
            }
            lemma_byte_len_increasing(s, k, end);
            lemma_match_ranges_ordered(s, query, end, byte_len(s.take(end)) as int);
        },
    }
}

/// Filling ordered ranges with the text between them tiles the text.
pub proof fn lemma_fill_tiles(ranges: Seq<(int, int)>, pos: int, len: int)
    requires
        ordered_ranges(ranges, pos, len),
        0 <= pos,
        len <= usize::MAX,
    ensures
        tiles(fill_segments(ranges, pos, len), pos, len),
    decreases ranges.len(),
{
    if ranges.len() == 0 {
        if pos < len {
            lemma_tiles_cons(segment(pos, len, false), seq![], pos, len);
            assert(seq![segment(pos, len, false)] + Seq::<Segment>::empty() =~= seq![
                segment(pos, len, false),
            ]);
        }
    } else {
        let (s, e) = ranges[0];
        let rest = fill_segments(ranges.drop_first(), e, len);
        lemma_fill_tiles(ranges.drop_first(), e, len);
        lemma_tiles_cons(segment(s, e, true), rest, s, len);
        if s > pos {
            lemma_tiles_cons(segment(pos, s, false), seq![segment(s, e, true)] + rest, pos, len);
            assert(fill_segments(ranges, pos, len) =~= seq![segment(pos, s, false)] + (seq![
                segment(s, e, true),
            ] + rest));
        } else {
            assert(fill_segments(ranges, pos, len) =~= seq![segment(s, e, true)] + rest);
        }
    }
}

/// When every character of a command lowercases to a single character, the
/// segments shown for a query cover the whole command, in order, each part
/// once and none empty.
pub proof fn law_segments_tile_command(command: Seq<char>, query: Seq<char>)
    requires
        byte_len(command) <= usize::MAX,
    ensures
        lowercases_one_to_one(command) ==> match command_segments(command, query) {
            Some(segments) => tiles(segments, 0, byte_len(command) as int),
            None => true,
        },
{
    if lowercases_one_to_one(command) && command_segments(command, query) is Some {
        assert(command.take(0) =~= Seq::<char>::empty());
        lemma_match_ranges_ordered(command, lowercase(query), 0, 0);
        lemma_fill_tiles(
            match_ranges(
                folded_chars(command),
                folded_starts(command),
                folded_ends(command),
                lowercase(query),
                0,
            ),
            0,
            byte_len(command) as int,
        );
    }
}

/// How a command is shown for a query: the segments of its
/// case-insensitive matches, or nothing when the command is shown plain.
pub fn highlight_segments(command: &str, query: &str) -> (segments: Option<Vec<Segment>>)
    requires
        byte_len(command@) <= usize::MAX,
    ensures
        match segments {
            Some(s) => command_segments(command@, query@) == Some(s@),
            None => command_segments(command@, query@) is None,
        },
{
    if query.is_empty() {
        return None;
    }
    let query_lower = chars_of(to_lowercase(query).as_str());
    if query_lower.len() == 0 {
        return None;
    }
    let (lower, starts, ends) = lowercase_with_original_offsets(command);
    proof {
        lemma_folded_lengths(command@);
    }
    let len = byte_length(command);
    Some(
        segments_for_folded(
            lower.as_slice(),
            starts.as_slice(),
            ends.as_slice(),
            query_lower.as_slice(),
            len,
        ),
    )
}

/// The number of bytes of a text in UTF-8.
pub fn byte_length(value: &str) -> (len: usize)
    requires
        byte_len(value@) <= usize::MAX,
    ensures
        len == byte_len(value@),
{
    let chars = chars_of(value);
    let ghost s = chars@;
    let mut len: usize = 0;
    let mut i: usize = 0;
    while i < chars.len()
        invariant
            s == chars@,
            byte_len(s) <= usize::MAX,
            i <= s.len(),
            len == byte_len(s.take(i as int)),
        decreases s.len() - i,
    {
        proof {
            lemma_byte_len_prefix(s, i + 1);
            assert(s.take(i + 1).drop_last() =~= s.take(i as int));
        }
        len = len + char_utf8_len(chars[i]);
        i = i + 1;
    }
    assert(s.take(s.len() as int) =~= s);
    len
}

/// `result` for one, `results` otherwise.
pub open spec fn result_word(n: int) -> Seq<char> {
    if n == 1 {
        "result"@
    } else {
        "results"@
    }
}

/// The name shown for a shell.
pub open spec fn shell_name(shell: ShellKind) -> Seq<char> {
    match shell {
        ShellKind::Bash => "bash"@,
        ShellKind::Zsh => "zsh"@,
    }
}

/// The share of visible entries in percent, rounded down (zero when there
/// are no entries).
pub open spec fn visible_percent(visible_len: nat, total: nat) -> nat {
    if total > 0 {
        (visible_len * 100) / total
    } else {
        0
    }
}

/// The status line: the status message when there is one; else, with an
/// empty query, the shell and the number of entries; else the number of
/// visible entries, out of how many, and the share in percent.
pub open spec fn status_line(
    status: Option<Seq<char>>,
    shell: ShellKind,
    query_empty: bool,
    total: nat,
    visible_len: nat,
) -> Seq<char> {
    match status {
        Some(message) => message,
        None => if query_empty {
            shell_name(shell) + " | "@ + decimal(total) + " "@ + result_word(total as int)
        } else {
            decimal(visible_len) + " "@ + result_word(visible_len as int) + "  ("@ + decimal(
                visible_len,
            ) + "/"@ + decimal(total) + " "@ + decimal(visible_percent(visible_len, total))
                + "%)"@
        },
    }
}

/// The status line of the picker when `visible_len` entries are visible.
pub fn status_text(app: &App, visible_len: usize) -> (text: String)
    requires
        app.status is None && app.query@.len() > 0 && app.entries@.len() > 0 ==> visible_len
            * 100 <= usize::MAX,
    ensures
        text@ == status_line(
            match app.status {
                Some(m) => Some(m@),
                None => None,
            },
            app.source.shell,
            app.query@.len() == 0,
            app.entries@.len(),
            visible_len as nat,
        ),
{
    if let Some(message) = &app.status {
        return message.clone();
    }
    let total = app.entries.len();
    let mut text = String::new();
    if app.query.as_str().is_empty() {
        match app.source.shell {
            ShellKind::Bash => text.append("bash"),
            ShellKind::Zsh => text.append("zsh"),
        }
        text.append(" | ");
        push_decimal(&mut text, total);
        text.append(" ");
        if total == 1 {
            text.append("result");
        } else {
            text.append("results");
        }
    } else {
        let percent = if total > 0 {
            (visible_len * 100) / total
        } else {
            0
        };
        push_decimal(&mut text, visible_len);
        text.append(" ");
        if visible_len == 1 {
            text.append("result");
        } else {
            text.append("results");
        }
        text.append("  (");
        push_decimal(&mut text, visible_len);
        text.append("/");
        push_decimal(&mut text, total);
        text.append(" ");
        push_decimal(&mut text, percent);
        text.append("%)");
    }
    text
}

/// The end of the list window: `height` rows from the scroll offset, but
/// no further than the visible entries go.
pub open spec fn window_end(scroll_offset: int, height: int, visible_len: int) -> int {
    if scroll_offset + height < visible_len {
        scroll_offset + height
    } else {
        visible_len
    }
}

/// The visible entries shown in a list of `height` rows scrolled to
/// `scroll_offset`: none when the offset is past the end.
pub fn list_rows(visible: &[usize], scroll_offset: usize, height: usize) -> (rows: Vec<usize>)
    requires
        scroll_offset + height <= usize::MAX,
    ensures
        rows@ == if scroll_offset <= window_end(
            scroll_offset as int,
            height as int,
            visible@.len() as int,
        ) {
            visible@.subrange(
                scroll_offset as int,
                window_end(scroll_offset as int, height as int, visible@.len() as int),
            )
        } else {
            Seq::<usize>::empty()
        },
{
    let end = if scroll_offset + height < visible.len() {
        scroll_offset + height
    } else {
        visible.len()
    };
    let mut rows: Vec<usize> = Vec::new();
    if scroll_offset > end {
        return rows;
    }
    let mut i = scroll_offset;
    while i < end
        invariant
            scroll_offset <= i <= end,
            end <= visible@.len(),
            rows@ == visible@.subrange(scroll_offset as int, i as int),
        decreases end - i,
    {
        rows.push(visible[i]);
        i = i + 1;
        assert(rows@ =~= visible@.subrange(scroll_offset as int, i as int));
    }
    rows
}

/// The highlighted row of the list: the selection's place in the window,
/// when the selection is on a visible entry.
pub fn selected_row(selected: usize, scroll_offset: usize, visible_len: usize) -> (row: Option<
    usize,
>)
    ensures
        row == if visible_len > 0 && selected < visible_len {
            Some(
                if selected >= scroll_offset {
                    (selected - scroll_offset) as usize
                } else {
                    0usize
                },
            )
        } else {
            None::<usize>
        },
{
    if visible_len > 0 && selected < visible_len {
        Some(
            if selected >= scroll_offset {
                selected - scroll_offset
            } else {
                0
            },
        )
    } else {
        None
    }
}

/// Whether the list shows the "no matching commands" message in place of
/// entries: nothing is visible for a query that is not empty.
pub fn shows_no_match_message(visible_len: usize, query: &str) -> (shown: bool)
    ensures
        shown == (visible_len == 0 && query@.len() > 0),
{
    visible_len == 0 && !query.is_empty()
}

/// Each position that `match_starts` lists holds an occurrence of the
/// query, and it lists some position exactly when an occurrence starts at
/// or after `from`.
pub proof fn lemma_match_starts_occur(lower: Seq<char>, query: Seq<char>, from: int)
    requires
        query.len() > 0,
        0 <= from,
    ensures
        forall|i: int|
            0 <= i < match_starts(lower, query, from).len() ==> occurs_at(
                lower,
                query,
                #[trigger] match_starts(lower, query, from)[i],
            ),
        match_starts(lower, query, from).len() > 0 <==> first_occurrence(lower, query, from) is Some,
    decreases lower.len() + 1 - from,
{
    lemma_first_occurrence(lower, query, from);
    if from > lower.len() {
        assert(first_occurrence(lower, query, from) is None);
    } else {
        match first_occurrence(lower, query, from) {
            Some(k) => {
                lemma_match_starts_occur(lower, query, k + query.len());
                let rest = match_starts(lower, query, k + query.len());
                assert(match_starts(lower, query, from) == seq![k] + rest);
                assert forall|i: int|
                    0 <= i < match_starts(lower, query, from).len() implies occurs_at(
                    lower,
                    query,
                    #[trigger] match_starts(lower, query, from)[i],
                ) by {
                    if i > 0 {
                        assert(match_starts(lower, query, from)[i] == rest[i - 1]);
                    }
                }
            },
            None => {},
        }
    }
}

/// Every highlighted segment is one of the ranges, and there is one when
/// there is a range.
pub proof fn lemma_fill_highlighted(ranges: Seq<(int, int)>, pos: int, len: int)
    ensures
        forall|i: int|
            0 <= i < fill_segments(ranges, pos, len).len() && (#[trigger] fill_segments(
                ranges,
                pos,
                len,
            )[i]).highlighted ==> exists|j: int|
                0 <= j < ranges.len() && fill_segments(ranges, pos, len)[i] == segment(
                    (#[trigger] ranges[j]).0,
                    ranges[j].1,
                    true,
                ),
        ranges.len() > 0 ==> exists|i: int|
            0 <= i < fill_segments(ranges, pos, len).len() && (#[trigger] fill_segments(
                ranges,
                pos,
                len,
            )[i]).highlighted,
    decreases ranges.len(),
{
    let segs = fill_segments(ranges, pos, len);
    if ranges.len() > 0 {
        let (s, e) = ranges[0];
        let tail = ranges.drop_first();
        let rest = fill_segments(tail, e, len);
        lemma_fill_highlighted(tail, e, len);
        let head: Seq<Segment> = if s > pos {
            seq![segment(pos, s, false)]
        } else {
            seq![]
        };
        assert(segs == head + seq![segment(s, e, true)] + rest);
        assert(segs[head.len() as int] == segment(s, e, true));
        assert forall|i: int| 0 <= i < segs.len() && (#[trigger] segs[i]).highlighted implies exists|
            j: int,
        | 0 <= j < ranges.len() && segs[i] == segment((#[trigger] ranges[j]).0, ranges[j].1, true) by {
            if i == head.len() {
                assert(segs[i] == segment(ranges[0].0, ranges[0].1, true));
            } else {
                let r = i - head.len() - 1;
                assert(segs[i] == rest[r]);
                assert(rest[r].highlighted);
                let j = choose|j: int|
                    0 <= j < tail.len() && rest[r] == segment(
                        (#[trigger] tail[j]).0,
                        tail[j].1,
                        true,
                    );
                assert(tail[j] == ranges[j + 1]);
                assert(segs[i] == segment(ranges[j + 1].0, ranges[j + 1].1, true));
            }
        }
    }
}

/// Highlighting depends on the query only through its lowercase form: two
/// queries that lowercase alike highlight a command alike.
pub proof fn law_highlight_ignores_query_case(command: Seq<char>, query: Seq<char>, other: Seq<char>)
    requires
        query.len() > 0,
        other.len() > 0,
        lowercase(query) == lowercase(other),
    ensures
        command_segments(command, query) == command_segments(command, other),
{
}

/// For a query that lowercases to something, every highlighted segment is
/// the byte range of an occurrence of the lowercased query in the
/// lowercased command, and some segment is highlighted exactly when the
/// lowercased command holds the lowercased query.
pub proof fn law_highlight_marks_matches(command: Seq<char>, query: Seq<char>)
    requires
        query.len() > 0,
        lowercase(query).len() > 0,
    ensures
        command_segments(command, query) matches Some(segments) && {
            &&& forall|i: int|
                0 <= i < segments.len() && (#[trigger] segments[i]).highlighted ==> exists|k: int|
                    #[trigger] occurs_at(folded_chars(command), lowercase(query), k)
                        && segments[i] == segment(
                        folded_starts(command)[k] as int,
                        folded_ends(command)[k + lowercase(query).len() - 1] as int,
                        true,
                    )
            &&& (exists|i: int| 0 <= i < segments.len() && (#[trigger] segments[i]).highlighted)
                <==> contains_seq(folded_chars(command), lowercase(query))
        },
{
    let lower = folded_chars(command);
    let lq = lowercase(query);
    let starts = folded_starts(command);
    let ends = folded_ends(command);
    let len = byte_len(command) as int;
    let ms = match_starts(lower, lq, 0);
    let ranges = match_ranges(lower, starts, ends, lq, 0);
    let segments = fill_segments(ranges, 0, len);
    assert(command_segments(command, query) == Some(segments));
    lemma_match_starts_occur(lower, lq, 0);
    lemma_first_occurrence(lower, lq, 0);
    lemma_fill_highlighted(ranges, 0, len);
    assert forall|i: int|
        0 <= i < segments.len() && (#[trigger] segments[i]).highlighted implies exists|k: int|
        #[trigger] occurs_at(lower, lq, k) && segments[i] == segment(
            starts[k] as int,
            ends[k + lq.len() - 1] as int,
            true,
        ) by {
        let j = choose|j: int|
            0 <= j < ranges.len() && segments[i] == segment(
                (#[trigger] ranges[j]).0,
                ranges[j].1,
                true,
            );
        assert(ranges[j] == (starts[ms[j]] as int, ends[ms[j] + lq.len() - 1] as int));
        assert(occurs_at(lower, lq, ms[j]));
    }
    if contains_seq(lower, lq) {
        let k = choose|k: int| occurs_at(lower, lq, k);
        assert(first_occurrence(lower, lq, 0) is Some);
        assert(ranges.len() > 0);
    }
    if exists|i: int| 0 <= i < segments.len() && (#[trigger] segments[i]).highlighted {
        let i = choose|i: int| 0 <= i < segments.len() && (#[trigger] segments[i]).highlighted;
        let j = choose|j: int|
            0 <= j < ranges.len() && segments[i] == segment(
                (#[trigger] ranges[j]).0,
                ranges[j].1,
                true,
            );
        assert(occurs_at(lower, lq, ms[j]));
        assert(contains_seq(lower, lq));
    }
    assert((exists|i: int| 0 <= i < segments.len() && (#[trigger] segments[i]).highlighted)
        <==> contains_seq(lower, lq));
}

} // verus!
