use bible_parser::common::{BookIndex, VerseInfo};
use bible_parser::fixture::{find_unique_book, find_unique_range, find_unique_verse, findx, verify_line};
use bible_parser::common::{TextIndex, Violation};
use bible_parser::ranges::{correction_for, find_boundary, join_body};
use bible_parser::text::to_chars;
use bible_parser::verses::{extract_verses, read_segment, rewrite, split_verses};

fn verse(chapter: usize, verse: usize, text: &str) -> VerseInfo {
    VerseInfo { chapter, verse, text: text.to_string() }
}

fn segment(s: &str) -> Option<VerseInfo> {
    read_segment(&to_chars(s))
}

#[test]
fn verses_are_split_at_anchors() {
    assert_eq!(extract_verses("1:1 a 1:2 b"), Ok(vec![verse(1, 1, "a"), verse(1, 2, "b")]));
    assert_eq!(
        extract_verses("  3:16 For God so loved the world,   that he gave  4:1 When therefore "),
        Ok(vec![verse(3, 16, "For God so loved the world,   that he gave"), verse(4, 1, "When therefore")])
    );
    assert_eq!(extract_verses("119:176 I have gone astray"), Ok(vec![verse(119, 176, "I have gone astray")]));
}

#[test]
fn text_before_the_first_anchor_gives_no_verse() {
    assert_eq!(extract_verses("The Book of Ruth  1:1 Now it came to pass"), Ok(vec![verse(1, 1, "Now it came to pass")]));
    assert_eq!(extract_verses("no anchor at all"), Ok(Vec::new()));
    assert_eq!(extract_verses(""), Ok(Vec::new()));
    assert_eq!(extract_verses("1: 2 :3 4 : 5"), Ok(Vec::new()));
}

#[test]
fn an_anchor_may_stand_without_text() {
    assert_eq!(extract_verses("12:34"), Ok(vec![verse(12, 34, "")]));
    assert_eq!(extract_verses("1:1 2:2"), Ok(vec![verse(1, 1, ""), verse(2, 2, "")]));
    assert_eq!(extract_verses("1:1   "), Ok(vec![verse(1, 1, "")]));
}

#[test]
fn anchors_need_no_space_around_them() {
    assert_eq!(extract_verses("x1:2y3:4z"), Ok(vec![verse(1, 2, "y"), verse(3, 4, "z")]));
    assert_eq!(extract_verses("1:11:2"), Ok(vec![verse(1, 11, ":2")]));
    assert_eq!(extract_verses("007:010 x"), Ok(vec![verse(7, 10, "x")]));
    assert_eq!(extract_verses("0:0 x"), Ok(vec![verse(0, 0, "x")]));
}

#[test]
fn a_delimiter_in_the_text_ends_the_verse() {
    assert_eq!(extract_verses("1:1 foo~bar 1:2 baz"), Ok(vec![verse(1, 1, "foo"), verse(1, 2, "baz")]));
    assert_eq!(extract_verses("~~1:1 a~~"), Ok(vec![verse(1, 1, "a")]));
    assert_eq!(extract_verses("a~1:1"), Ok(vec![verse(1, 1, "")]));
}

#[test]
fn numbers_beyond_the_machine_word_are_no_anchor() {
    let most = usize::MAX;
    assert_eq!(extract_verses(&format!("{}:{} x", most, most)), Ok(vec![verse(most, most, "x")]));
    assert_eq!(extract_verses(&format!("1:1 a {}0:1 b 1:2 c", most)), Ok(vec![verse(1, 1, "a"), verse(1, 2, "c")]));
    assert_eq!(extract_verses("1:99999999999999999999999999 x"), Ok(Vec::new()));
    let mut digits = most.to_string();
    let last = digits.pop().unwrap();
    digits.push(char::from_digit(last.to_digit(10).unwrap() + 1, 10).unwrap());
    assert_eq!(extract_verses(&format!("{}:1 x", digits)), Ok(Vec::new()));
}

#[test]
fn digits_of_other_scripts_are_no_anchor() {
    assert_eq!(extract_verses("\u{663}:\u{664} x 1:1 y"), Ok(vec![verse(1, 1, "y")]));
}

#[test]
fn marked_text_is_split_at_delimiters() {
    assert_eq!(split_verses("~1:1 a ~1:2 b"), vec![verse(1, 1, "a"), verse(1, 2, "b")]);
    assert_eq!(split_verses("1:1 a 1:2 b"), vec![verse(1, 1, "a 1:2 b")]);
    assert_eq!(split_verses("head ~2:3\u{a0}text\t~ 2:4 late~2:5"), vec![verse(2, 3, "text"), verse(2, 5, "")]);
    assert_eq!(split_verses(""), Vec::new());
    assert_eq!(split_verses("~"), Vec::new());
}

#[test]
fn a_segment_must_begin_with_an_anchor() {
    assert_eq!(segment("1:2 text "), Some(verse(1, 2, "text")));
    assert_eq!(segment("1:2"), Some(verse(1, 2, "")));
    assert_eq!(segment("10:20abc"), Some(verse(10, 20, "abc")));
    assert_eq!(segment(" 1:2 text"), None);
    assert_eq!(segment("1 :2 text"), None);
    assert_eq!(segment("1: 2 text"), None);
    assert_eq!(segment(":2 text"), None);
    assert_eq!(segment("1:"), None);
    assert_eq!(segment("1"), None);
    assert_eq!(segment(""), None);
    assert_eq!(segment("a1:2"), None);
}

#[test]
fn first_difference_of_two_texts() {
    assert_eq!(findx("abc", "abc"), None);
    assert_eq!(findx("", ""), None);
    assert_eq!(findx("abc", "abd"), Some(2));
    assert_eq!(findx("abc", "xbc"), Some(0));
    assert_eq!(findx("abc", "ab"), Some(2));
    assert_eq!(findx("ab", "abc"), Some(2));
    assert_eq!(findx("", "a"), Some(0));
    assert_eq!(findx("h\u{e9}llo", "h\u{e9}llx"), Some(4));
}

#[test]
fn a_line_is_held_against_the_verses() {
    let verses = vec![verse(1, 1, "a b"), verse(1, 2, "c"), verse(1, 2, "d")];
    assert_eq!(verify_line(&verses, "1:1 a b", 3, 4), None);
    assert_eq!(verify_line(&verses, "1:1   a b  ", 3, 4), None);
    assert_eq!(verify_line(&verses, "x 1:1 a b", 3, 4), Some(Violation::VerseSyntax { test: 3, line: 4 }));
    assert_eq!(
        verify_line(&verses, "1:2 c", 3, 4),
        Some(Violation::VerseLookup { test: 3, line: 4, chapter: 1, verse: 2 })
    );
    assert_eq!(
        verify_line(&verses, "2:1 c", 0, 0),
        Some(Violation::VerseLookup { test: 0, line: 0, chapter: 2, verse: 1 })
    );
    assert_eq!(
        verify_line(&verses, "1:1 a  b", 5, 6),
        Some(Violation::TextMismatch { test: 5, line: 6, chapter: 1, verse: 1, position: 2 })
    );
}

#[test]
fn unique_items_are_found_by_their_keys() {
    let verses = vec![verse(1, 1, "a"), verse(1, 2, "c"), verse(2, 1, "d"), verse(1, 2, "e")];
    assert_eq!(find_unique_verse(&verses, 1, 1), Some(0));
    assert_eq!(find_unique_verse(&verses, 2, 1), Some(2));
    assert_eq!(find_unique_verse(&verses, 1, 2), None);
    assert_eq!(find_unique_verse(&verses, 2, 2), None);
    let text = |start_num: usize| TextIndex { start_num, end_num: 0, body_text: String::new(), verses: Vec::new() };
    let texts = vec![text(5), text(9), text(5), text(7)];
    assert_eq!(find_unique_range(&texts, 9), Some(1));
    assert_eq!(find_unique_range(&texts, 7), Some(3));
    assert_eq!(find_unique_range(&texts, 5), None);
    assert_eq!(find_unique_range(&texts, 0), None);
    let entry = |title: &str, is_book: bool| BookIndex { bidx: 1, title: title.to_string(), is_book, line_num: 0 };
    let books = vec![entry("Ruth", false), entry("Ruth", true), entry("Amos", true), entry("Amos", true)];
    assert_eq!(find_unique_book(&books, &"Ruth".to_string()), Some(1));
    assert_eq!(find_unique_book(&books, &"Amos".to_string()), None);
    assert_eq!(find_unique_book(&books, &"Rut".to_string()), None);
}

#[test]
fn the_last_book_of_the_old_testament_ends_early() {
    assert_eq!(correction_for("Malachi"), 11);
    assert_eq!(correction_for("The Book of Malachi the Prophet"), 11);
    assert_eq!(correction_for("malachi"), 0);
    assert_eq!(correction_for("The Gospel According to Saint Matthew"), 0);
    assert_eq!(correction_for(""), 0);
}

#[test]
fn the_correction_does_not_reach_before_the_first_line() {
    let lines: Vec<String> = ["end of list", "Malachi", "1:1 a", "", "Next", "1:1 b", "", "the end"]
        .iter()
        .map(|s| s.to_string())
        .collect();
    let entry = |bidx: usize, title: &str, is_book: bool, line_num: usize| BookIndex {
        bidx,
        title: title.to_string(),
        is_book,
        line_num,
    };
    let mut books = vec![
        entry(3, "End New Testament Books", false, 0),
        entry(4, "End Bible Text", false, 7),
        entry(1, "Malachi", true, 0),
        entry(1, "Next", true, 0),
    ];
    let texts = bible_parser::ranges::book_texts(&lines, &mut books).unwrap();
    assert_eq!((texts[0].start_num, texts[0].end_num), (1, 0));
    assert_eq!(texts[0].body_text, "");
    assert_eq!(texts[0].verses, Vec::new());
    assert_eq!((texts[1].start_num, texts[1].end_num), (4, 7));
    assert_eq!(texts[1].verses, vec![verse(1, 1, "b")]);
}

#[test]
fn boundaries_are_read_from_the_marker_entries() {
    let entry = |bidx: usize, is_book: bool, line_num: usize| BookIndex {
        bidx,
        title: String::new(),
        is_book,
        line_num,
    };
    let books = vec![entry(3, true, 1), entry(1, false, 2), entry(3, false, 30), entry(3, false, 31), entry(4, false, 40)];
    assert_eq!(find_boundary(&books, 3), Some(30));
    assert_eq!(find_boundary(&books, 4), Some(40));
    assert_eq!(find_boundary(&books, 1), Some(2));
    assert_eq!(find_boundary(&books, 2), None);
    assert_eq!(find_boundary(&Vec::new(), 3), None);
}

#[test]
fn a_body_joins_the_lines_between_heading_and_last_line() {
    let lines: Vec<String> = ["h", "a", "", " b ", "c", "last"].iter().map(|s| s.to_string()).collect();
    assert_eq!(join_body(&lines, 0, 6), "a   b  c");
    assert_eq!(join_body(&lines, 0, 5), "a   b ");
    assert_eq!(join_body(&lines, 0, 3), "a");
    assert_eq!(join_body(&lines, 0, 2), "");
    assert_eq!(join_body(&lines, 0, 1), "");
    assert_eq!(join_body(&lines, 0, 0), "");
    assert_eq!(join_body(&lines, 3, 2), "");
    assert_eq!(join_body(&lines, 3, 6), "c");
    assert_eq!(join_body(&lines, 4, 7), "last");
    assert_eq!(join_body(&lines, 0, 100), "a   b  c last");
    assert_eq!(join_body(&lines, 5, 100), "");
    assert_eq!(join_body(&lines, usize::MAX, usize::MAX), "");
    assert_eq!(join_body(&lines, 1, 4), "");
    assert_eq!(join_body(&lines, 1, 5), "  b ");
}

#[test]
fn a_pattern_that_the_engine_refuses_is_reported() {
    assert_eq!(rewrite("(", "1:1 a", "~"), Err(Violation::PatternRefused));
    assert_eq!(rewrite("\\w{1000}", "x", "y"), Err(Violation::PatternRefused));
}

#[test]
fn matches_are_rewritten_by_the_engine() {
    assert_eq!(rewrite("[0-9]+", "a1b22c", "<$0>"), Ok("a<1>b<22>c".to_string()));
    assert_eq!(rewrite("(?P<chapter>\\d+):(?P<verse>\\d+)", "x 1:2 y 33:44", "~${chapter}:${verse}"), Ok("x ~1:2 y ~33:44".to_string()));
    assert_eq!(rewrite("z", "abc", "~"), Ok("abc".to_string()));
    assert_eq!(rewrite("b", "abc", ""), Ok("ac".to_string()));
}
