use bible_parser::marker::normalize_string;
use bible_parser::text::{contains_chars, from_chars, is_whitespace, normalize_chars, starts_with_chars, to_chars, trim_bounds};

fn check_six() {
    assert_eq!(normalize_string(&"hello".to_string()), "hello");
    assert_eq!(normalize_string(&" hello ".to_string()), "hello");
    assert_eq!(normalize_string(&"hello there".to_string()), "hello there");
    assert_eq!(normalize_string(&" hello there ".to_string()), "hello there");
    assert_eq!(normalize_string(&"  hello  there  ".to_string()), "hello there");
    assert_eq!(normalize_string(&"  hello  there  again  ".to_string()), "hello there again");
}

#[test]
#[allow(non_snake_case)]
fn bibleParser_normalize_string_tests() {
    check_six();
}

#[test]
fn main_normalize_string_tests() {
    check_six();
}

#[test]
fn normalize_empty_and_blank() {
    assert_eq!(normalize_string(&String::new()), "");
    assert_eq!(normalize_string(&"   ".to_string()), "");
    assert_eq!(normalize_string(&"\t \u{a0}".to_string()), "");
}

#[test]
fn normalize_squeezes_every_kind_of_white_space() {
    assert_eq!(normalize_string(&"a\tb".to_string()), "a b");
    assert_eq!(normalize_string(&"\ta \r\n b\u{3000}c ".to_string()), "a b c");
}

#[test]
fn normalize_is_idempotent_on_a_sample() {
    let once = normalize_string(&"  The   First Book  of Moses ".to_string());
    let twice = normalize_string(&once);
    assert_eq!(once, "The First Book of Moses");
    assert_eq!(once, twice);
}

#[test]
fn normalize_chars_matches_normalize_string() {
    let cs = to_chars("  x  y ");
    let out = normalize_chars(&cs);
    assert_eq!(out, vec!['x', ' ', 'y']);
}

#[test]
fn to_chars_and_back() {
    let cs = to_chars("h\u{e9}llo");
    assert_eq!(cs, vec!['h', '\u{e9}', 'l', 'l', 'o']);
    assert_eq!(from_chars(&cs, 0, cs.len()), "h\u{e9}llo");
    assert_eq!(from_chars(&cs, 1, 3), "\u{e9}l");
    assert_eq!(from_chars(&cs, 2, 2), "");
}

#[test]
fn white_space_is_told_apart() {
    for c in [' ', '\t', '\n', '\r', '\u{b}', '\u{c}', '\u{85}', '\u{a0}', '\u{1680}', '\u{2000}', '\u{200a}', '\u{2028}', '\u{2029}', '\u{202f}', '\u{205f}', '\u{3000}'] {
        assert!(is_whitespace(c));
        assert!(c.is_whitespace());
    }
    for c in ['a', '~', '0', ':', '\u{200b}', '\u{8}', '\u{e}', '\u{1f}', '\u{feff}'] {
        assert!(!is_whitespace(c));
        assert!(!c.is_whitespace());
    }
}

#[test]
fn white_space_agrees_with_the_standard_library_everywhere() {
    let mut n: u32 = 0;
    while n <= 0x10ffff {
        if let Some(c) = char::from_u32(n) {
            assert_eq!(is_whitespace(c), c.is_whitespace());
        }
        n += 1;
    }
}

#[test]
fn trim_bounds_cut_both_ends() {
    let cs = to_chars("  ab c \t");
    assert_eq!(trim_bounds(&cs, 0, cs.len()), (2, 6));
    assert_eq!(trim_bounds(&cs, 3, cs.len()), (3, 6));
    let blank = to_chars(" \t ");
    let (a, b) = trim_bounds(&blank, 0, blank.len());
    assert_eq!(a, b);
    assert_eq!(trim_bounds(&cs, 4, 4), (4, 4));
}

#[test]
fn contains_finds_substrings() {
    let hay = to_chars("The Book of Malachi");
    assert!(contains_chars(&hay, &to_chars("Malachi")));
    assert!(contains_chars(&hay, &to_chars("The")));
    assert!(contains_chars(&hay, &to_chars("")));
    assert!(contains_chars(&hay, &hay));
    assert!(!contains_chars(&hay, &to_chars("Malachy")));
    assert!(!contains_chars(&hay, &to_chars("The Book of Malachi ")));
    assert!(!contains_chars(&to_chars(""), &to_chars("a")));
    assert!(contains_chars(&to_chars(""), &to_chars("")));
}

#[test]
fn starts_with_looks_at_the_head_only() {
    let hay = to_chars("T~Genesis");
    assert!(starts_with_chars(&hay, &to_chars("T~")));
    assert!(starts_with_chars(&hay, &to_chars("")));
    assert!(!starts_with_chars(&hay, &to_chars("~G")));
    assert!(!starts_with_chars(&to_chars("T"), &to_chars("T~")));
}

#[test]
fn contains_agrees_with_the_standard_library() {
    let texts = ["", "a", "ab", "aab", "abab", "The Book of Malachi", "  x ", "\u{e9}t\u{e9}", "aaa"];
    for hay in texts {
        for needle in texts {
            let got = contains_chars(&to_chars(hay), &to_chars(needle));
            assert_eq!(got, hay.contains(needle), "{:?} in {:?}", needle, hay);
            let head = starts_with_chars(&to_chars(hay), &to_chars(needle));
            assert_eq!(head, hay.starts_with(needle), "{:?} at the head of {:?}", needle, hay);
        }
    }
}

#[test]
fn normalize_joins_the_words() {
    let texts = ["", " ", "a", " a", "a ", "a b", "a  b", " a \t b\u{a0}\u{a0}c ", "\u{2003}x\u{2003}", "a\nb\r\nc"];
    for text in texts {
        let words: Vec<&str> = text.split_whitespace().collect();
        let once = normalize_string(&text.to_string());
        assert_eq!(once, words.join(" "), "{:?}", text);
        assert_eq!(normalize_string(&once), once);
        let kept: String = once.chars().filter(|c| !c.is_whitespace()).collect();
        let had: String = text.chars().filter(|c| !c.is_whitespace()).collect();
        assert_eq!(kept, had);
    }
}

#[test]
fn trim_agrees_with_the_standard_library() {
    let texts = ["", " ", "a", " a", "a ", " a b ", "\t\u{a0}a\u{3000}b \r\n", " \u{200b} "];
    for text in texts {
        let cs = to_chars(text);
        let (a, b) = trim_bounds(&cs, 0, cs.len());
        assert_eq!(from_chars(&cs, a, b), text.trim(), "{:?}", text);
    }
}
