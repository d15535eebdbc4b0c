//! Character-sequence helpers shared by the rest of the library.
use vstd::prelude::*;
use vstd::string::*;

verus! {

/// `String::push` appends one character.
pub assume_specification[ String::push ](string: &mut String, ch: char)
    ensures
        final(string)@ == old(string)@.push(ch),
;

/// `String::pop` removes and returns the last character, if there is one.
pub assume_specification[ String::pop ](string: &mut String) -> (last: Option<char>)
    ensures
        old(string)@.len() == 0 ==> last is None && final(string)@ == old(string)@,
        old(string)@.len() > 0 ==> last == Some(old(string)@.last()) && final(string)@
            == old(string)@.drop_last(),
;

/// What `str::to_lowercase` returns for a string, taken as a sequence of
/// characters (Unicode lowercase mapping, final sigma included).
pub uninterp spec fn lowercase(s: Seq<char>) -> Seq<char>;

/// Calls `str::to_lowercase`; the result is named by `lowercase`. Besides
/// that name, the one fact claimed is that the empty string lowercases to
/// the empty string.
#[verifier::external_body]
pub(crate) fn to_lowercase(s: &str) -> (lowered: String)
    ensures
        lowered@ == lowercase(s@),
        s@.len() == 0 ==> lowered@.len() == 0,
{
    s.to_lowercase()
}

/// What `char::to_lowercase` yields for one character.
pub uninterp spec fn char_lowercase(c: char) -> Seq<char>;

/// Calls `char::to_lowercase` and collects what it yields. Its documentation
/// says that the mapping is one or more characters; nothing else is claimed.
#[verifier::external_body]
pub(crate) fn char_to_lowercase(c: char) -> (lowered: Vec<char>)
    ensures
        lowered@ == char_lowercase(c),
        lowered@.len() >= 1,
{
    c.to_lowercase().collect()
}

/// The characters of a string, in order.
pub fn chars_of(s: &str) -> (chars: Vec<char>)
    ensures
        chars@ == s@,
{
    let mut chars: Vec<char> = Vec::new();
    for c in it: s.chars()
        invariant
            chars@ == it.seq().take(it.index() as int),
    {
        chars.push(c);
    }
    chars
}

/// The string made of the given characters, in order.
pub fn string_of(chars: &[char]) -> (s: String)
    ensures
        s@ == chars@,
{
    let mut s = String::new();
    let mut i: usize = 0;
    while i < chars.len()
        invariant
            i <= chars@.len(),
            s@ == chars@.take(i as int),
        decreases chars@.len() - i,
    {
        s.push(chars[i]);
        i = i + 1;
        assert(chars@.take(i as int) == chars@.take(i - 1).push(chars@[i - 1]));
    }
    assert(chars@.take(chars@.len() as int) == chars@);
    s
}

/// A vector holding the given characters.
pub fn copy_chars(chars: &[char]) -> (copy: Vec<char>)
    ensures
        copy@ == chars@,
{
    let mut copy: Vec<char> = Vec::new();
    let mut i: usize = 0;
    while i < chars.len()
        invariant
            i <= chars@.len(),
            copy@ == chars@.take(i as int),
        decreases chars@.len() - i,
    {
        copy.push(chars[i]);
        i = i + 1;
        assert(chars@.take(i as int) == chars@.take(i - 1).push(chars@[i - 1]));
    }
    assert(chars@.take(chars@.len() as int) == chars@);
    copy
}

/// `needle` occurs in `hay` starting at position `i`.
pub open spec fn occurs_at(hay: Seq<char>, needle: Seq<char>, i: int) -> bool {
    0 <= i && i + needle.len() <= hay.len() && hay.subrange(i, i + needle.len()) == needle
}

/// `needle` occurs somewhere in `hay` (`str::contains` on characters).
pub open spec fn contains_seq(hay: Seq<char>, needle: Seq<char>) -> bool {
    exists|i: int| occurs_at(hay, needle, i)
}

/// The leftmost position at or after `from` where `needle` occurs in `hay`.
pub open spec fn first_occurrence(hay: Seq<char>, needle: Seq<char>, from: int) -> Option<int>
    decreases hay.len() + 1 - from,
{
    if from < 0 || from + needle.len() > hay.len() {
        None
    } else if occurs_at(hay, needle, from) {
        Some(from)
    } else {
        first_occurrence(hay, needle, from + 1)
    }
}

/// `first_occurrence` is the leftmost occurrence, and there is none only when
/// no position at or after `from` holds one.
pub proof fn lemma_first_occurrence(hay: Seq<char>, needle: Seq<char>, from: int)
    requires
        0 <= from,
    ensures
        first_occurrence(hay, needle, from) matches Some(k) ==> from <= k && occurs_at(
            hay,
            needle,
            k,
        ) && forall|j: int| from <= j < k ==> !occurs_at(hay, needle, j),
        first_occurrence(hay, needle, from) is None ==> forall|j: int|
            from <= j ==> !occurs_at(hay, needle, j),
    decreases hay.len() + 1 - from,
{
    if from + needle.len() > hay.len() {
    } else if occurs_at(hay, needle, from) {
    } else {
        lemma_first_occurrence(hay, needle, from + 1);
        assert forall|j: int| from <= j && !(from + 1 <= j) implies !occurs_at(
            hay,
            needle,
            j,
        ) by {}
    }
}

/// Whether `needle` occurs in `hay` at position `i`.
pub fn occurs_at_exec(hay: &[char], needle: &[char], i: usize) -> (found: bool)
    ensures
        found == occurs_at(hay@, needle@, i as int),
{
    if needle.len() > hay.len() || i > hay.len() - needle.len() {
        return false;
    }
    let mut j: usize = 0;
    while j < needle.len()
        invariant
            j <= needle@.len(),
            i + needle@.len() <= hay@.len(),
            hay@.len() == hay.len(),
            forall|t: int| 0 <= t < j ==> hay@[i + t] == needle@[t],
        decreases needle@.len() - j,
    {
        if hay[i + j] != needle[j] {
            assert(hay@.subrange(i as int, i + needle@.len())[j as int] != needle@[j as int]);
            return false;
        }
        j = j + 1;
    }
    assert(hay@.subrange(i as int, i + needle@.len()) =~= needle@);
    true
}

/// The leftmost position at or after `from` where `needle` occurs in `hay`.
pub fn find_from(hay: &[char], needle: &[char], from: usize) -> (found: Option<usize>)
    ensures
        match found {
            Some(k) => first_occurrence(hay@, needle@, from as int) == Some(k as int),
            None => first_occurrence(hay@, needle@, from as int) is None,
        },
{
    if needle.len() > hay.len() {
        return None;
    }
    let last = hay.len() - needle.len();
    let mut i = from;
    while i <= last
        invariant
            from <= i,
            last + needle@.len() == hay@.len(),
            first_occurrence(hay@, needle@, from as int) == first_occurrence(
                hay@,
                needle@,
                i as int,
            ),
        decreases last + 1 - i,
    {
        if occurs_at_exec(hay, needle, i) {
            return Some(i);
        }
        if i == last {
            assert(first_occurrence(hay@, needle@, i + 1) is None);
            return None;
        }
        i = i + 1;
    }
    None
}

/// Whether `needle` occurs anywhere in `hay`.
pub fn contains_chars(hay: &[char], needle: &[char]) -> (found: bool)
    ensures
        found == contains_seq(hay@, needle@),
{
    proof {
        lemma_first_occurrence(hay@, needle@, 0);
    }
    match find_from(hay, needle, 0) {
        Some(k) => {
            assert(occurs_at(hay@, needle@, k as int));
            true
        },
        None => false,
    }
}

/// The character of a decimal digit.
pub open spec fn digit_char(d: int) -> char {
    ((d + 48) as u8) as char
}

/// The decimal numeral of a number, without leading zeros.
pub open spec fn decimal(n: nat) -> Seq<char>
    decreases n,
{
    if n < 10 {
        seq![digit_char(n as int)]
    } else {
        decimal(n / 10).push(digit_char((n % 10) as int))
    }
}

/// Appends the decimal numeral of `n`.
pub fn push_decimal(s: &mut String, n: usize)
    ensures
        final(s)@ == old(s)@ + decimal(n as nat),
    decreases n,
{
    if n >= 10 {
        push_decimal(s, n / 10);
    }
    let d = (n % 10) as u8;
    s.push((d + 48) as char);
    assert(decimal(n as nat) == if n < 10 {
        seq![digit_char(n as int)]
    } else {
        decimal((n / 10) as nat).push(digit_char((n % 10) as int))
    });
}

/// Whether a character is an ASCII digit.
pub open spec fn is_digit(c: char) -> bool {
    '0' <= c <= '9'
}

/// Whether every character is an ASCII digit.
pub open spec fn all_digits(s: Seq<char>) -> bool {
    forall|i: int| 0 <= i < s.len() ==> is_digit(#[trigger] s[i])
}

/// The value of a string of decimal digits.
pub open spec fn digits_value(s: Seq<char>) -> nat
    decreases s.len(),
{
    if s.len() == 0 {
        0
    } else {
        digits_value(s.drop_last()) * 10 + ((s.last() as u32) - 48) as nat
    }
}

/// `u16::from_str`: an optional `+`, then one or more ASCII digits whose
/// value fits in 16 bits.
pub open spec fn parsed_u16(s: Seq<char>) -> Option<u16> {
    let digits = if s.len() > 0 && s[0] == '+' {
        s.skip(1)
    } else {
        s
    };
    if digits.len() == 0 || !all_digits(digits) {
        None
    } else if digits_value(digits) <= u16::MAX {
        Some(digits_value(digits) as u16)
    } else {
        None
    }
}

/// A longer string of digits is worth at least as much as its prefix.
pub proof fn lemma_digits_value_prefix(s: Seq<char>, i: int)
    requires
        0 <= i <= s.len(),
        forall|j: int| 0 <= j < s.len() ==> is_digit(#[trigger] s[j]),
    ensures
        digits_value(s.take(i)) <= digits_value(s),
    decreases s.len(),
{
    if i < s.len() {
        assert(s.take(i) =~= s.drop_last().take(i));
        lemma_digits_value_prefix(s.drop_last(), i);
    } else {
        assert(s.take(i) =~= s);
    }
}

/// `u16::from_str` on a string of characters.
pub fn parse_u16(s: &[char]) -> (value: Option<u16>)
    ensures
        value == parsed_u16(s@),
{
    let first: usize = if s.len() > 0 && s[0] == '+' {
        1
    } else {
        0
    };
    let ghost digits = s@.skip(first as int);
    assert(digits == if s@.len() > 0 && s@[0] == '+' {
        s@.skip(1)
    } else {
        s@
    }) by {
        if first == 0 {
            assert(s@.skip(0) =~= s@);
        }
    }
    if first >= s.len() {
        return None;
    }
    let mut value: u32 = 0;
    let mut i: usize = first;
    while i < s.len()
        invariant
            first <= i <= s@.len(),
            digits == s@.skip(first as int),
            digits == if s@.len() > 0 && s@[0] == '+' {
                s@.skip(1)
            } else {
                s@
            },
            digits.len() > 0,
            forall|j: int| 0 <= j < i - first ==> is_digit(#[trigger] digits[j]),
            value == digits_value(digits.take(i - first)),
            value <= u16::MAX,
        decreases s@.len() - i,
    {
        let c = s[i];
        assert(digits[i - first] == c);
        if !('0' <= c && c <= '9') {
            assert(!all_digits(digits));
            return None;
        }
        assert(digits.take(i + 1 - first).drop_last() =~= digits.take(i - first));
        assert(digits.take(i + 1 - first).last() == c);
        let next = value * 10 + (c as u32 - 48);
        if next > 65535 {
            proof {
                if all_digits(digits) {
                    lemma_digits_value_prefix(digits, i + 1 - first);
                }
            }
            return None;
        }
        value = next;
        i = i + 1;
    }
    assert(digits.take(i - first) =~= digits);
    Some(value as u16)
}

} // verus!
