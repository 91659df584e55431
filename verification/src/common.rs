use vstd::prelude::*;
use crate::text::line_views;

verus! {

/// The line number of a book whose heading has not been found.
pub const UNRESOLVED: usize = 0;

/// One entry of the catalog: a structural marker or a book.
#[derive(Debug, Clone, PartialEq, Eq)]
pub struct BookIndex {
    /// For a marker its role, 1 to 4; for a book its place within its
    /// testament, counted from 1.
    pub bidx: usize,
    pub title: String,
    pub is_book: bool,
    /// The line of the marker, or of the book's heading in the body;
    /// `UNRESOLVED` for a book until its heading is found.
    pub line_num: usize,
}

/// What a catalog entry holds.
pub ghost struct BookIndexView {
    pub bidx: usize,
    pub title: Seq<char>,
    pub is_book: bool,
    pub line_num: usize,
}

impl View for BookIndex {
    type V = BookIndexView;

    open spec fn view(&self) -> BookIndexView {
        BookIndexView {
            bidx: self.bidx,
            title: self.title@,
            is_book: self.is_book,
            line_num: self.line_num,
        }
    }
}

/// One verse: its chapter, its number within the chapter, and its text.
#[derive(Debug, Clone, PartialEq, Eq)]
pub struct VerseInfo {
    pub chapter: usize,
    pub verse: usize,
    pub text: String,
}

/// What a verse holds.
pub ghost struct VerseView {
    pub chapter: usize,
    pub verse: usize,
    pub text: Seq<char>,
}

impl View for VerseInfo {
    type V = VerseView;

    open spec fn view(&self) -> VerseView {
        VerseView { chapter: self.chapter, verse: self.verse, text: self.text@ }
    }
}

/// The lines of one book: from its heading at `start_num` up to, not
/// including, `end_num`, with the text between them and its verses.
#[derive(Debug, Clone, PartialEq, Eq)]
pub struct TextIndex {
    pub start_num: usize,
    pub end_num: usize,
    pub body_text: String,
    pub verses: Vec<VerseInfo>,
}

/// What a book's range holds.
pub ghost struct TextView {
    pub start_num: usize,
    pub end_num: usize,
    pub body_text: Seq<char>,
    pub verses: Seq<VerseView>,
}

impl View for TextIndex {
    type V = TextView;

    open spec fn view(&self) -> TextView {
        TextView {
            start_num: self.start_num,
            end_num: self.end_num,
            body_text: self.body_text@,
            verses: verse_views(self.verses@),
        }
    }
}

/// The verses expected of one book, each as a line `chapter:verse text`.
#[derive(Debug, Clone, PartialEq, Eq)]
pub struct Test {
    pub book: String,
    pub verses: Vec<String>,
}

/// What a fixture holds.
pub ghost struct FixtureView {
    pub book: Seq<char>,
    pub verses: Seq<Seq<char>>,
}

impl View for Test {
    type V = FixtureView;

    open spec fn view(&self) -> FixtureView {
        FixtureView { book: self.book@, verses: line_views(self.verses@) }
    }
}

/// The fixtures, one for each book.
#[derive(Debug, Clone, PartialEq, Eq)]
pub struct TestSuite {
    pub tests: Vec<Test>,
}

impl View for TestSuite {
    type V = Seq<FixtureView>;

    open spec fn view(&self) -> Seq<FixtureView> {
        fixture_views(self.tests@)
    }
}

/// Why a run was given up.
#[derive(Debug, Clone, Copy, PartialEq, Eq, Structural)]
pub enum Violation {
    /// The catalog has no marker entry for the end of the list of books.
    MissingBoundary,
    /// The regex engine refused the anchor pattern.
    PatternRefused,
    /// The number of fixtures is not the number of books; it is `found`.
    FixtureCount { found: usize },
    /// The catalog does not hold exactly one book with the title of fixture
    /// `test`.
    BookLookup { test: usize },
    /// Not exactly one range starts at the line of the book of fixture `test`.
    RangeLookup { test: usize },
    /// Line `line` of fixture `test` does not start with an anchor.
    VerseSyntax { test: usize, line: usize },
    /// The book of fixture `test` does not hold exactly one verse with the
    /// chapter and verse of the fixture's line `line`.
    VerseLookup { test: usize, line: usize, chapter: usize, verse: usize },
    /// The verse named on line `line` of fixture `test` has another text than
    /// the line gives; the two differ first at character `position`.
    TextMismatch { test: usize, line: usize, chapter: usize, verse: usize, position: usize },
}

/// The entries of a catalog, each by what it holds.
pub open spec fn catalog_view(catalog: Seq<BookIndex>) -> Seq<BookIndexView> {
    catalog.map_values(|b: BookIndex| b@)
}

/// The verses of a sequence, each by what it holds.
pub open spec fn verse_views(verses: Seq<VerseInfo>) -> Seq<VerseView> {
    verses.map_values(|v: VerseInfo| v@)
}

/// The ranges of a sequence, each by what it holds.
pub open spec fn text_views(texts: Seq<TextIndex>) -> Seq<TextView> {
    texts.map_values(|t: TextIndex| t@)
}

/// The fixtures of a sequence, each by what it holds.
pub open spec fn fixture_views(tests: Seq<Test>) -> Seq<FixtureView> {
    tests.map_values(|t: Test| t@)
}

} // verus!
