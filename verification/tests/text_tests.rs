use hst::text::{contains_chars, find_from, parse_u16, push_decimal, string_of};

fn chars(s: &str) -> Vec<char> {
    s.chars().collect()
}

#[test]
fn find_from_gives_leftmost_occurrence() {
    let hay = chars("abcabc");

    assert_eq!(find_from(&hay, &chars("bc"), 0), Some(1));
    assert_eq!(find_from(&hay, &chars("bc"), 2), Some(4));
    assert_eq!(find_from(&hay, &chars("bc"), 5), None);
    assert_eq!(find_from(&hay, &chars("x"), 0), None);
}

#[test]
fn contains_matches_str_contains() {
    for (hay, needle) in [("git status", "stat"), ("git", "gits"), ("", ""), ("a", "")] {
        assert_eq!(contains_chars(&chars(hay), &chars(needle)), hay.contains(needle));
    }
}

#[test]
fn decimal_numerals() {
    let mut s = String::from("n=");
    push_decimal(&mut s, 0);
    push_decimal(&mut s, 7);
    s.push(',');
    push_decimal(&mut s, 1204);
    assert_eq!(s, "n=07,1204");

    let mut max = String::new();
    push_decimal(&mut max, usize::MAX);
    assert_eq!(max, usize::MAX.to_string());
}

#[test]
fn u16_parsing_matches_std() {
    for text in ["0", "65535", "65536", "+1", "+", "-1", "", "1a", "007", "99999999999"] {
        assert_eq!(parse_u16(&chars(text)), text.parse::<u16>().ok(), "{text}");
    }
}

#[test]
fn string_of_collects_chars() {
    assert_eq!(string_of(&chars("héllo")), "héllo");
}
