use vstd::prelude::*;
use vstd::slice::slice_subrange;
use crate::common::{
    BookIndex, BookIndexView, FixtureView, Test, TestSuite, TextIndex, TextView, VerseInfo,
    VerseView, Violation, catalog_view, fixture_views, text_views, verse_views,
};
use crate::text::{
    starts_with, trim, trimmed_lines, line_views, to_chars, from_chars, trim_bounds,
    starts_with_chars,
};
use crate::verses::{parse_segment, read_segment};

verus! {

/// The number of books, and so of fixtures.
pub const BOOK_COUNT: usize = 66;

/// What a line begins with where it opens a fixture.
pub open spec fn sentinel() -> Seq<char> {
    seq!['T', '~']
}

/// The fixtures that the lines `tl` write, the lines being trimmed and none
/// of them blank. A line that begins with the sentinel opens a fixture for
/// the book whose title follows the sentinel; any other line is an expected
/// verse of the fixture that is open, and belongs to none where none is.
pub open spec fn fixtures_of(tl: Seq<Seq<char>>) -> Seq<FixtureView>
    decreases tl.len(),
{
    if tl.len() == 0 {
        Seq::empty()
    } else {
        let before = fixtures_of(tl.drop_last());
        let line = tl.last();
        if starts_with(line, sentinel()) {
            before.push(FixtureView { book: trim(line.skip(2)), verses: Seq::empty() })
        } else if before.len() == 0 {
            before
        } else {
            before.drop_last().push(
                FixtureView { book: before.last().book, verses: before.last().verses.push(line) },
            )
        }
    }
}

/// The suite that the lines of a fixture file write: its fixtures, if there
/// is one for each book.
pub open spec fn suite_of(lines: Seq<Seq<char>>) -> Result<Seq<FixtureView>, Violation> {
    let fixtures = fixtures_of(trimmed_lines(lines, 0, lines.len() as int));
    if fixtures.len() == BOOK_COUNT {
        Ok(fixtures)
    } else {
        Err(Violation::FixtureCount { found: fixtures.len() as usize })
    }
}

/// The first position at or after `i` at which `a` and `b` differ, or at
/// which one of them ends.
pub open spec fn mismatch_from(a: Seq<char>, b: Seq<char>, i: int) -> int
    decreases a.len() - i,
{
    if 0 <= i < a.len() && i < b.len() && a[i] == b[i] {
        mismatch_from(a, b, i + 1)
    } else {
        i
    }
}

/// The first position at which `a` and `b` differ.
pub open spec fn first_difference(a: Seq<char>, b: Seq<char>) -> int {
    mismatch_from(a, b, 0)
}

/// The positions of the books of `catalog` with the title `title`.
pub open spec fn book_positions(catalog: Seq<BookIndexView>, title: Seq<char>) -> Seq<int>
    decreases catalog.len(),
{
    if catalog.len() == 0 {
        Seq::empty()
    } else {
        let before = book_positions(catalog.drop_last(), title);
        if catalog.last().is_book && catalog.last().title == title {
            before.push(catalog.len() - 1)
        } else {
            before
        }
    }
}

/// The positions of the ranges of `texts` that start at the line `start`.
pub open spec fn range_positions(texts: Seq<TextView>, start: usize) -> Seq<int>
    decreases texts.len(),
{
    if texts.len() == 0 {
        Seq::empty()
    } else {
        let before = range_positions(texts.drop_last(), start);
        if texts.last().start_num == start {
            before.push(texts.len() - 1)
        } else {
            before
        }
    }
}

/// The positions of the verses of `verses` with the given chapter and verse.
pub open spec fn verse_positions(verses: Seq<VerseView>, chapter: usize, verse: usize) -> Seq<int>
    decreases verses.len(),
{
    if verses.len() == 0 {
        Seq::empty()
    } else {
        let before = verse_positions(verses.drop_last(), chapter, verse);
        if verses.last().chapter == chapter && verses.last().verse == verse {
            before.push(verses.len() - 1)
        } else {
            before
        }
    }
}

/// What is wrong with one expected line, if anything: it must begin with an
/// anchor, the book must hold exactly one verse with the anchor's chapter and
/// verse, and that verse must have the text that follows the anchor.
pub open spec fn check_line(verses: Seq<VerseView>, line: Seq<char>, test: usize, index: usize) -> Option<
    Violation,
> {
    match parse_segment(line) {
        None => Some(Violation::VerseSyntax { test, line: index }),
        Some(want) => {
            let found = verse_positions(verses, want.chapter, want.verse);
            if found.len() != 1 {
                Some(
                    Violation::VerseLookup {
                        test,
                        line: index,
                        chapter: want.chapter,
                        verse: want.verse,
                    },
                )
            } else if verses[found[0]].text == want.text {
                None
            } else {
                Some(
                    Violation::TextMismatch {
                        test,
                        line: index,
                        chapter: want.chapter,
                        verse: want.verse,
                        position: first_difference(verses[found[0]].text, want.text) as usize,
                    },
                )
            }
        },
    }
}

/// What is wrong with the first of the first `k` expected lines that has
/// something wrong, if one has.
pub open spec fn check_lines(verses: Seq<VerseView>, lines: Seq<Seq<char>>, test: usize, k: int) -> Option<
    Violation,
>
    decreases k,
{
    if k <= 0 {
        None
    } else {
        match check_lines(verses, lines, test, k - 1) {
            Some(e) => Some(e),
            None => check_line(verses, lines[k - 1], test, (k - 1) as usize),
        }
    }
}

/// What is wrong with one fixture, if anything: the catalog must hold exactly
/// one book with its title, exactly one range must start at that book's
/// line, and each expected line must be found in that range.
pub open spec fn check_fixture(
    catalog: Seq<BookIndexView>,
    texts: Seq<TextView>,
    fixture: FixtureView,
    test: usize,
) -> Option<Violation> {
    let books = book_positions(catalog, fixture.book);
    if books.len() != 1 {
        Some(Violation::BookLookup { test })
    } else {
        let ranges = range_positions(texts, catalog[books[0]].line_num);
        if ranges.len() != 1 {
            Some(Violation::RangeLookup { test })
        } else {
            check_lines(
                texts[ranges[0]].verses,
                fixture.verses,
                test,
                fixture.verses.len() as int,
            )
        }
    }
}

/// What is wrong with the first of the first `k` fixtures that has something
/// wrong, if one has.
pub open spec fn check_suite(
    catalog: Seq<BookIndexView>,
    texts: Seq<TextView>,
    fixtures: Seq<FixtureView>,
    k: int,
) -> Option<Violation>
    decreases k,
{
    if k <= 0 {
        None
    } else {
        match check_suite(catalog, texts, fixtures, k - 1) {
            Some(e) => Some(e),
            None => check_fixture(catalog, texts, fixtures[k - 1], (k - 1) as usize),
        }
    }
}

/// The verdict on a catalog and its ranges: the first thing wrong, or none.
pub open spec fn verdict(
    catalog: Seq<BookIndexView>,
    texts: Seq<TextView>,
    fixtures: Seq<FixtureView>,
) -> Result<(), Violation> {
    match check_suite(catalog, texts, fixtures, fixtures.len() as int) {
        Some(e) => Err(e),
        None => Ok(()),
    }
}

/// What is wrong among the first `k` expected lines is still what is wrong
/// among the first `n`, for `n` from `k` on.
proof fn lemma_check_lines_keeps(
    verses: Seq<VerseView>,
    lines: Seq<Seq<char>>,
    test: usize,
    k: int,
    n: int,
)
    requires
        0 <= k <= n,
        check_lines(verses, lines, test, k) is Some,
    ensures
        check_lines(verses, lines, test, n) == check_lines(verses, lines, test, k),
    decreases n - k,
{
    if k < n {
        lemma_check_lines_keeps(verses, lines, test, k, n - 1);
    }
}

/// What is wrong among the first `k` fixtures is still what is wrong among
/// the first `n`, for `n` from `k` on.
proof fn lemma_check_suite_keeps(
    catalog: Seq<BookIndexView>,
    texts: Seq<TextView>,
    fixtures: Seq<FixtureView>,
    k: int,
    n: int,
)
    requires
        0 <= k <= n,
        check_suite(catalog, texts, fixtures, k) is Some,
    ensures
        check_suite(catalog, texts, fixtures, n) == check_suite(catalog, texts, fixtures, k),
    decreases n - k,
{
    if k < n {
        lemma_check_suite_keeps(catalog, texts, fixtures, k, n - 1);
    }
}

/// Two texts that differ nowhere before both end are the same text.
proof fn lemma_mismatch(a: Seq<char>, b: Seq<char>, i: int)
    requires
        0 <= i <= a.len(),
        i <= b.len(),
        forall|j: int| 0 <= j < i ==> a[j] == b[j],
    ensures
        ({
            let p = mismatch_from(a, b, i);
            &&& i <= p <= a.len()
            &&& p <= b.len()
            &&& (a == b <==> p == a.len() && p == b.len())
            &&& forall|j: int| 0 <= j < p ==> a[j] == b[j]
            &&& p < a.len() && p < b.len() ==> a[p] != b[p]
        }),
    decreases a.len() - i,
{
    if i < a.len() && i < b.len() && a[i] == b[i] {
        lemma_mismatch(a, b, i + 1);
    } else {
        let p = i;
        if p == a.len() && p == b.len() {
            assert(a =~= b);
        }
    }
}

/// Where two texts first differ, if they differ.
pub fn findx(t1: &str, t2: &str) -> (r: Option<usize>)
    ensures
        match r {
            Some(p) => t1@ != t2@ && p == first_difference(t1@, t2@),
            None => t1@ == t2@,
        },
{
    let a = to_chars(t1);
    let b = to_chars(t2);
    let mut i: usize = 0;
    while i < a.len() && i < b.len() && a[i] == b[i]
        invariant
            i <= a.len(),
            i <= b.len(),
            forall|j: int| 0 <= j < i ==> a@[j] == b@[j],
            mismatch_from(a@, b@, 0) == mismatch_from(a@, b@, i as int),
        decreases a.len() - i,
    {
        i += 1;
    }
    proof {
        lemma_mismatch(a@, b@, 0);
    }
    if i == a.len() && i == b.len() {
        None
    } else {
        Some(i)
    }
}

/// The position of the one book of `catalog` with the title `title`, where
/// there is exactly one.
pub fn find_unique_book(catalog: &Vec<BookIndex>, title: &String) -> (r: Option<usize>)
    ensures
        match r {
            Some(p) => book_positions(catalog_view(catalog@), title@) == seq![p as int] && p
                < catalog.len(),
            None => book_positions(catalog_view(catalog@), title@).len() != 1,
        },
{
    let ghost view = catalog_view(catalog@);
    let mut count: usize = 0;
    let mut pos: usize = 0;
    let mut i: usize = 0;
    while i < catalog.len()
        invariant
            i <= catalog.len(),
            view == catalog_view(catalog@),
            count == book_positions(view.take(i as int), title@).len(),
            count <= i,
            count == 1 ==> book_positions(view.take(i as int), title@) == seq![pos as int] && pos
                < i,
        decreases catalog.len() - i,
    {
        proof {
            assert(view.take(i + 1).drop_last() =~= view.take(i as int));
            assert(view.take(i + 1).last() == catalog@[i as int]@);
        }
        if catalog[i].is_book && catalog[i].title == *title {
            if count == 0 {
                pos = i;
                proof {
                    assert(book_positions(view.take(i + 1), title@) =~= seq![i as int]);
                }
            }
            count += 1;
        }
        i += 1;
    }
    proof {
        assert(view.take(catalog.len() as int) =~= view);
    }
    if count == 1 {
        Some(pos)
    } else {
        None
    }
}

/// The position of the one range of `texts` that starts at `start`, where
/// there is exactly one.
pub fn find_unique_range(texts: &Vec<TextIndex>, start: usize) -> (r: Option<usize>)
    ensures
        match r {
            Some(p) => range_positions(text_views(texts@), start) == seq![p as int] && p
                < texts.len(),
            None => range_positions(text_views(texts@), start).len() != 1,
        },
{
    let ghost view = text_views(texts@);
    let mut count: usize = 0;
    let mut pos: usize = 0;
    let mut i: usize = 0;
    while i < texts.len()
        invariant
            i <= texts.len(),
            view == text_views(texts@),
            count == range_positions(view.take(i as int), start).len(),
            count <= i,
            count == 1 ==> range_positions(view.take(i as int), start) == seq![pos as int] && pos
                < i,
        decreases texts.len() - i,
    {
        proof {
            assert(view.take(i + 1).drop_last() =~= view.take(i as int));
            assert(view.take(i + 1).last() == texts@[i as int]@);
        }
        if texts[i].start_num == start {
            if count == 0 {
                pos = i;
                proof {
                    assert(range_positions(view.take(i + 1), start) =~= seq![i as int]);
                }
            }
            count += 1;
        }
        i += 1;
    }
    proof {
        assert(view.take(texts.len() as int) =~= view);
    }
    if count == 1 {
        Some(pos)
    } else {
        None
    }
}

/// The position of the one verse of `verses` with the given chapter and
/// verse, where there is exactly one.
pub fn find_unique_verse(verses: &Vec<VerseInfo>, chapter: usize, verse: usize) -> (r: Option<
    usize,
>)
    ensures
        match r {
            Some(p) => verse_positions(verse_views(verses@), chapter, verse) == seq![p as int]
                && p < verses.len(),
            None => verse_positions(verse_views(verses@), chapter, verse).len() != 1,
        },
{
    let ghost view = verse_views(verses@);
    let mut count: usize = 0;
    let mut pos: usize = 0;
    let mut i: usize = 0;
    while i < verses.len()
        invariant
            i <= verses.len(),
            view == verse_views(verses@),
            count == verse_positions(view.take(i as int), chapter, verse).len(),
            count <= i,
            count == 1 ==> verse_positions(view.take(i as int), chapter, verse) == seq![
                pos as int,
            ] && pos < i,
        decreases verses.len() - i,
    {
        proof {
            assert(view.take(i + 1).drop_last() =~= view.take(i as int));
            assert(view.take(i + 1).last() == verses@[i as int]@);
        }
        if verses[i].chapter == chapter && verses[i].verse == verse {
            if count == 0 {
                pos = i;
                proof {
                    assert(verse_positions(view.take(i + 1), chapter, verse) =~= seq![i as int]);
                }
            }
            count += 1;
        }
        i += 1;
    }
    proof {
        assert(view.take(verses.len() as int) =~= view);
    }
    if count == 1 {
        Some(pos)
    } else {
        None
    }
}

/// Holds one expected line against the verses of its book.
pub fn verify_line(verses: &Vec<VerseInfo>, line: &str, test: usize, index: usize) -> (r: Option<
    Violation,
>)
    ensures
        r == check_line(verse_views(verses@), line@, test, index),
{
    let cs = to_chars(line);
    let want = match read_segment(cs.as_slice()) {
        Some(want) => want,
        None => {
            return Some(Violation::VerseSyntax { test, line: index });
        },
    };
    let pos = match find_unique_verse(verses, want.chapter, want.verse) {
        Some(pos) => pos,
        None => {
            return Some(
                Violation::VerseLookup {
                    test,
                    line: index,
                    chapter: want.chapter,
                    verse: want.verse,
                },
            );
        },
    };
    assert(verse_views(verses@)[pos as int] == verses@[pos as int]@);
    match findx(verses[pos].text.as_str(), want.text.as_str()) {
        None => None,
        Some(position) => Some(
            Violation::TextMismatch {
                test,
                line: index,
                chapter: want.chapter,
                verse: want.verse,
                position,
            },
        ),
    }
}

impl TestSuite {
    /// Reads the fixtures that the lines of a fixture file write.
    #[verifier::loop_isolation(false)]
    pub fn new(lines: &[String]) -> (r: Result<TestSuite, Violation>)
        ensures
            match suite_of(line_views(lines@)) {
                Ok(fixtures) => r matches Ok(suite) && suite@ == fixtures,
                Err(e) => r matches Err(x) && x == e,
            },
    {
        let ghost views = line_views(lines@);
        let mark: Vec<char> = vec!['T', '~'];
        assert(mark@ =~= sentinel());
        let mut done: Vec<Test> = Vec::new();
        let mut book = String::new();
        let mut verses: Vec<String> = Vec::new();
        let mut open = false;
        let mut i: usize = 0;
        while i < lines.len()
            invariant
                i <= lines.len(),
                open ==> fixtures_of(trimmed_lines(views, 0, i as int)) == fixture_views(
                    done@,
                ).push(FixtureView { book: book@, verses: line_views(verses@) }),
                !open ==> fixtures_of(trimmed_lines(views, 0, i as int)).len() == 0 && done@.len()
                    == 0,
            decreases lines.len() - i,
        {
            let cs = to_chars(lines[i].as_str());
            let (a, b) = trim_bounds(cs.as_slice(), 0, cs.len());
            proof {
                assert(cs@.subrange(0, cs.len() as int) =~= cs@);
                assert(views[i as int] == cs@);
            }
            if a < b {
                let line = slice_subrange(cs.as_slice(), a, b);
                let ghost tl = trimmed_lines(views, 0, i as int);
                proof {
                    assert(trimmed_lines(views, 0, i + 1) == tl.push(line@));
                    assert(tl.push(line@).drop_last() =~= tl);
                }
                if starts_with_chars(line, mark.as_slice()) {
                    if open {
                        let ghost prior = done@;
                        done.push(Test { book, verses });
                        proof {
                            assert(fixture_views(done@) =~= fixture_views(prior).push(
                                done@.last()@,
                            ));
                        }
                    } else {
                        proof {
                            assert(fixtures_of(tl) =~= fixture_views(done@));
                        }
                    }
                    let (lo, hi) = trim_bounds(line, 2, line.len());
                    book = from_chars(line, lo, hi);
                    verses = Vec::new();
                    open = true;
                    proof {
                        assert(line@.skip(2) =~= line@.subrange(2, line.len() as int));
                        assert(line_views(verses@) =~= Seq::empty());
                    }
                } else if open {
                    let ghost prior = verses@;
                    let text = from_chars(line, 0, line.len());
                    verses.push(text);
                    proof {
                        assert(line@.subrange(0, line.len() as int) =~= line@);
                        assert(line_views(verses@) =~= line_views(prior).push(line@));
                        let f = fixtures_of(tl);
                        assert(f.drop_last() =~= fixture_views(done@));
                    }
                }
            }
            i += 1;
        }
        if open {
            let ghost prior = done@;
            done.push(Test { book, verses });
            proof {
                assert(fixture_views(done@) =~= fixture_views(prior).push(done@.last()@));
            }
        } else {
            proof {
                assert(fixture_views(done@) =~= Seq::empty());
                assert(fixtures_of(trimmed_lines(views, 0, lines.len() as int)) =~= Seq::empty());
            }
        }
        if done.len() == BOOK_COUNT {
            Ok(TestSuite { tests: done })
        } else {
            Err(Violation::FixtureCount { found: done.len() })
        }
    }

    /// Holds a catalog and the ranges of its books against the fixtures, and
    /// gives the first thing wrong, if anything is.
    #[verifier::loop_isolation(false)]
    pub fn run(&self, books: Vec<BookIndex>, texts: &Vec<TextIndex>) -> (r: Result<(), Violation>)
        ensures
            r == verdict(catalog_view(books@), text_views(texts@), self@),
    {
        let ghost catalog = catalog_view(books@);
        let ghost ranges = text_views(texts@);
        let ghost fixtures = self@;
        let mut t: usize = 0;
        while t < self.tests.len()
            invariant
                t <= self.tests.len(),
                check_suite(catalog, ranges, fixtures, t as int) is None,
            decreases self.tests.len() - t,
        {
            let test = &self.tests[t];
            assert(fixtures[t as int] == test@);
            let book = match find_unique_book(&books, &test.book) {
                Some(book) => book,
                None => {
                    proof {
                        lemma_check_suite_keeps(
                            catalog,
                            ranges,
                            fixtures,
                            t + 1,
                            fixtures.len() as int,
                        );
                    }
                    return Err(Violation::BookLookup { test: t });
                },
            };
            assert(catalog[book as int] == books@[book as int]@);
            let range = match find_unique_range(texts, books[book].line_num) {
                Some(range) => range,
                None => {
                    proof {
                        lemma_check_suite_keeps(
                            catalog,
                            ranges,
                            fixtures,
                            t + 1,
                            fixtures.len() as int,
                        );
                    }
                    return Err(Violation::RangeLookup { test: t });
                },
            };
            assert(ranges[range as int] == texts@[range as int]@);
            let found = &texts[range].verses;
            let mut v: usize = 0;
            while v < test.verses.len()
                invariant
                    v <= test.verses.len(),
                    check_lines(verse_views(found@), test@.verses, t, v as int) is None,
                decreases test.verses.len() - v,
            {
                assert(test@.verses[v as int] == test.verses@[v as int]@);
                match verify_line(found, test.verses[v].as_str(), t, v) {
                    Some(e) => {
                        proof {
                            lemma_check_lines_keeps(
                                verse_views(found@),
                                test@.verses,
                                t,
                                v + 1,
                                test@.verses.len() as int,
                            );
                            lemma_check_suite_keeps(
                                catalog,
                                ranges,
                                fixtures,
                                t + 1,
                                fixtures.len() as int,
                            );
                        }
                        return Err(e);
                    },
                    None => {},
                }
                v += 1;
            }
            t += 1;
        }
        Ok(())
    }
}

/// The positions of the verses with a given chapter and verse are the
/// positions of such verses, and every such verse is among them.
pub proof fn lemma_verse_positions(verses: Seq<VerseView>, chapter: usize, verse: usize)
    ensures
        forall|k: int|
            0 <= k < verse_positions(verses, chapter, verse).len() ==> {
                let p = #[trigger] verse_positions(verses, chapter, verse)[k];
                0 <= p < verses.len() && verses[p].chapter == chapter && verses[p].verse == verse
            },
        forall|p: int|
            0 <= p < verses.len() && (#[trigger] verses[p]).chapter == chapter && verses[p].verse
                == verse ==> verse_positions(verses, chapter, verse).contains(p),
    decreases verses.len(),
{
    if verses.len() > 0 {
        let init = verses.drop_last();
        lemma_verse_positions(init, chapter, verse);
        let before = verse_positions(init, chapter, verse);
        let now = verse_positions(verses, chapter, verse);
        assert forall|k: int| 0 <= k < now.len() implies {
            let p = #[trigger] now[k];
            0 <= p < verses.len() && verses[p].chapter == chapter && verses[p].verse == verse
        } by {
            if k < before.len() {
                assert(now[k] == before[k]);
                assert(verses[before[k]] == init[before[k]]);
            }
        }
        assert forall|p: int|
            0 <= p < verses.len() && (#[trigger] verses[p]).chapter == chapter && verses[p].verse
                == verse implies now.contains(p) by {
            if p < init.len() {
                assert(init[p] == verses[p]);
                assert(before.contains(p));
                let k = choose|k: int| 0 <= k < before.len() && before[k] == p;
                assert(now[k] == p);
            } else {
                assert(now[now.len() - 1] == p);
            }
        }
    }
}

/// Where nothing is wrong among the first `n` expected lines, nothing is
/// wrong with any one of them.
proof fn lemma_check_lines_none(
    verses: Seq<VerseView>,
    lines: Seq<Seq<char>>,
    test: usize,
    n: int,
    l: int,
)
    requires
        0 <= l < n,
        check_lines(verses, lines, test, n) is None,
    ensures
        check_line(verses, lines[l], test, l as usize) is None,
    decreases n,
{
    if l < n - 1 {
        lemma_check_lines_none(verses, lines, test, n - 1, l);
    }
}

/// Where nothing is wrong among the first `n` fixtures, nothing is wrong
/// with any one of them.
proof fn lemma_check_suite_none(
    catalog: Seq<BookIndexView>,
    texts: Seq<TextView>,
    fixtures: Seq<FixtureView>,
    n: int,
    t: int,
)
    requires
        0 <= t < n,
        check_suite(catalog, texts, fixtures, n) is None,
    ensures
        check_fixture(catalog, texts, fixtures[t], t as usize) is None,
    decreases n,
{
    if t < n - 1 {
        lemma_check_suite_none(catalog, texts, fixtures, n - 1, t);
    }
}

/// Where the verdict is that nothing is wrong, every expected line of every
/// fixture is found again: the catalog holds exactly one book with the
/// fixture's title, exactly one range starts at that book's line, the line
/// begins with an anchor, and among the verses of that range exactly one has
/// the anchor's chapter and verse, with the very text that the line gives,
/// trimmed.
pub proof fn lemma_verdict_ok(
    catalog: Seq<BookIndexView>,
    texts: Seq<TextView>,
    fixtures: Seq<FixtureView>,
    t: int,
    l: int,
)
    requires
        verdict(catalog, texts, fixtures) is Ok,
        0 <= t < fixtures.len(),
        0 <= l < fixtures[t].verses.len(),
    ensures
        ({
            let books = book_positions(catalog, fixtures[t].book);
            let ranges = range_positions(texts, catalog[books[0]].line_num);
            let verses = texts[ranges[0]].verses;
            &&& books.len() == 1
            &&& ranges.len() == 1
            &&& parse_segment(fixtures[t].verses[l]) matches Some(want) && exists|p: int|
                {
                    &&& 0 <= p < verses.len()
                    &&& #[trigger] verses[p] == want
                    &&& forall|q: int|
                        0 <= q < verses.len() && (#[trigger] verses[q]).chapter == want.chapter
                            && verses[q].verse == want.verse ==> q == p
                }
        }),
{
    lemma_check_suite_none(catalog, texts, fixtures, fixtures.len() as int, t);
    let books = book_positions(catalog, fixtures[t].book);
    let ranges = range_positions(texts, catalog[books[0]].line_num);
    let verses = texts[ranges[0]].verses;
    lemma_check_lines_none(verses, fixtures[t].verses, t as usize, fixtures[t].verses.len() as int, l);
    let want = parse_segment(fixtures[t].verses[l])->0;
    lemma_verse_positions(verses, want.chapter, want.verse);
    let found = verse_positions(verses, want.chapter, want.verse);
    let p = found[0];
    assert(verses[p] == want);
    assert forall|q: int|
        0 <= q < verses.len() && (#[trigger] verses[q]).chapter == want.chapter && verses[q].verse
            == want.verse implies q == p by {
        assert(found.contains(q));
    }
}

} // verus!
