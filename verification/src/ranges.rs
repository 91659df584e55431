use vstd::prelude::*;
use vstd::string::StringExecFns;
use crate::common::{
    BookIndex, BookIndexView, TextIndex, TextView, Violation, catalog_view, text_views, UNRESOLVED,
};
use crate::marker::{locate, start_of, lemma_locate_first};
use crate::text::{contains, line_views, to_chars, contains_chars};
use crate::verses::{
    anchor_pattern, extract_verses, marked_text, pattern_compiles, verses_of_marked,
};

verus! {

/// The role of the marker entry for the end of the list of books.
pub const LIST_END_ROLE: usize = 3;

/// The role of the marker entry for the end of the text.
pub const TEXT_END_ROLE: usize = 4;

/// The number of lines by which the heading after the last book of the Old
/// Testament is found too late.
pub const LATE_HEADING_LINES: usize = 11;

/// The line of the first marker entry of `catalog` with the role `role`.
pub open spec fn boundary_line(catalog: Seq<BookIndexView>, role: usize) -> Option<usize>
    decreases catalog.len(),
{
    if catalog.len() == 0 {
        None
    } else if !catalog[0].is_book && catalog[0].bidx == role {
        Some(catalog[0].line_num)
    } else {
        boundary_line(catalog.drop_first(), role)
    }
}

/// Where the search for the first heading starts: on the line after `ent`,
/// the end of the list of books.
pub open spec fn search_from(lines: Seq<Seq<char>>, ent: usize) -> int {
    if ent < lines.len() {
        ent + 1
    } else {
        lines.len() as int
    }
}

/// Where the search stands after the first `k` entries of `catalog`: on the
/// line after the last heading found, or at `first` if none was.
pub open spec fn cursor_after(
    lines: Seq<Seq<char>>,
    catalog: Seq<BookIndexView>,
    first: int,
    k: int,
) -> int
    decreases k,
{
    if k <= 0 {
        first
    } else {
        let cursor = cursor_after(lines, catalog, first, k - 1);
        if catalog[k - 1].is_book {
            match locate(catalog[k - 1].title, lines, cursor) {
                Some(found) => found + 1,
                None => cursor,
            }
        } else {
            cursor
        }
    }
}

/// Entry `k` of `catalog` once the headings are sought: a book has the line
/// of the first heading with its title at or after the place where the search
/// stands, or `UNRESOLVED` where there is none; a marker entry is as it was.
pub open spec fn resolved_entry(
    lines: Seq<Seq<char>>,
    catalog: Seq<BookIndexView>,
    first: int,
    k: int,
) -> BookIndexView {
    let entry = catalog[k];
    if entry.is_book {
        match locate(entry.title, lines, cursor_after(lines, catalog, first, k)) {
            Some(found) => BookIndexView { line_num: found as usize, ..entry },
            None => BookIndexView { line_num: UNRESOLVED, ..entry },
        }
    } else {
        entry
    }
}

/// The catalog once the headings of its books are sought in order, each from
/// the line after the one found before it, the first from `first`.
pub open spec fn resolve(lines: Seq<Seq<char>>, catalog: Seq<BookIndexView>, first: int) -> Seq<
    BookIndexView,
> {
    Seq::new(catalog.len(), |k: int| resolved_entry(lines, catalog, first, k))
}

/// Whether an entry is a book whose heading was found.
pub open spec fn is_resolved(entry: BookIndexView) -> bool {
    entry.is_book && entry.line_num != UNRESOLVED
}

/// The books of `catalog` whose heading was found, in order.
pub open spec fn resolved_books(catalog: Seq<BookIndexView>) -> Seq<BookIndexView>
    decreases catalog.len(),
{
    if catalog.len() == 0 {
        Seq::empty()
    } else {
        let before = resolved_books(catalog.drop_last());
        if is_resolved(catalog.last()) {
            before.push(catalog.last())
        } else {
            before
        }
    }
}

/// The number of lines by which the end of a book's range is moved back: that
/// of the late heading for the book whose title holds "Malachi", the last of
/// the Old Testament, and none for any other.
pub open spec fn end_correction(title: Seq<char>) -> usize {
    if contains(title, "Malachi"@) {
        LATE_HEADING_LINES
    } else {
        0
    }
}

/// The end of the range of book `k` of `books`: for the last book `end`, for
/// another the line of the next book's heading, moved back by the book's
/// correction, though not before line 0.
pub open spec fn range_end(books: Seq<BookIndexView>, k: int, end: usize) -> usize {
    if k + 1 < books.len() {
        let next = books[k + 1].line_num;
        let back = end_correction(books[k].title);
        if next >= back {
            (next - back) as usize
        } else {
            0
        }
    } else {
        end
    }
}

/// The lines from `lo` up to, not including, `hi`, joined by single spaces.
pub open spec fn join_lines(lines: Seq<Seq<char>>, lo: int, hi: int) -> Seq<char>
    decreases hi - lo,
{
    if lo >= hi {
        Seq::empty()
    } else if lo + 1 == hi {
        lines[lo]
    } else {
        join_lines(lines, lo, hi - 1).push(' ') + lines[hi - 1]
    }
}

/// The body of the range from `start` to `end`: its lines without the first,
/// the heading, and without the last, joined by single spaces. A range that
/// reaches past the text ends with the text.
pub open spec fn body_of(lines: Seq<Seq<char>>, start: usize, end: usize) -> Seq<char> {
    join_lines(
        lines,
        start + 1,
        if end - 1 <= lines.len() {
            end - 1
        } else {
            lines.len() as int
        },
    )
}

/// The range of book `k` of `books`, with its body and its verses.
pub open spec fn text_of(lines: Seq<Seq<char>>, books: Seq<BookIndexView>, k: int, end: usize) -> TextView {
    let start = books[k].line_num;
    let stop = range_end(books, k, end);
    let body = body_of(lines, start, stop);
    TextView {
        start_num: start,
        end_num: stop,
        body_text: body,
        verses: verses_of_marked(marked_text(body)),
    }
}

/// The ranges of `books`, in order; without books there are none, and with
/// books they cannot be had where the regex engine refuses the anchor
/// pattern.
pub open spec fn texts_of(lines: Seq<Seq<char>>, books: Seq<BookIndexView>, end: usize) -> Result<
    Seq<TextView>,
    Violation,
> {
    if books.len() == 0 || pattern_compiles(anchor_pattern()) {
        Ok(Seq::new(books.len(), |k: int| text_of(lines, books, k, end)))
    } else {
        Err(Violation::PatternRefused)
    }
}

/// The end of the text according to `catalog`: the line of its marker entry
/// for it, or the number of lines where it has none.
pub open spec fn text_end(lines: Seq<Seq<char>>, catalog: Seq<BookIndexView>) -> usize {
    match boundary_line(catalog, TEXT_END_ROLE) {
        Some(end) => end,
        None => lines.len() as usize,
    }
}

/// The line of the first marker entry of `catalog` with the role `role`.
pub fn find_boundary(catalog: &Vec<BookIndex>, role: usize) -> (r: Option<usize>)
    ensures
        r == boundary_line(catalog_view(catalog@), role),
{
    let ghost view = catalog_view(catalog@);
    let mut i: usize = 0;
    proof {
        assert(view.skip(0) =~= view);
    }
    while i < catalog.len()
        invariant
            i <= catalog.len(),
            view == catalog_view(catalog@),
            boundary_line(view, role) == boundary_line(view.skip(i as int), role),
        decreases catalog.len() - i,
    {
        proof {
            assert(view.skip(i as int).drop_first() =~= view.skip(i + 1));
            assert(view.skip(i as int)[0] == catalog@[i as int]@);
        }
        if !catalog[i].is_book && catalog[i].bidx == role {
            return Some(catalog[i].line_num);
        }
        i += 1;
    }
    None
}

/// Seeks the heading of each book of `catalog`, in order, and writes its line
/// into the book's entry.
fn resolve_lines(lines: &[String], catalog: &mut Vec<BookIndex>, first: usize)
    requires
        first <= lines.len(),
    ensures
        catalog_view(final(catalog)@) == resolve(
            line_views(lines@),
            catalog_view(old(catalog)@),
            first as int,
        ),
{
    let ghost views = line_views(lines@);
    let ghost before = catalog_view(catalog@);
    let mut cursor: usize = first;
    let mut k: usize = 0;
    while k < catalog.len()
        invariant
            k <= catalog.len(),
            views == line_views(lines@),
            catalog@.len() == before.len(),
            cursor <= lines.len(),
            cursor == cursor_after(views, before, first as int, k as int),
            forall|j: int|
                0 <= j < k ==> (#[trigger] catalog@[j])@ == resolved_entry(
                    views,
                    before,
                    first as int,
                    j,
                ),
            forall|j: int| k <= j < catalog.len() ==> (#[trigger] catalog@[j])@ == before[j],
        decreases catalog.len() - k,
    {
        if catalog[k].is_book {
            proof {
                lemma_locate_first(before[k as int].title, views, cursor as int);
            }
            match start_of(catalog[k].title.as_str(), lines, cursor) {
                Ok(found) => {
                    catalog[k].line_num = found;
                    cursor = found + 1;
                },
                Err(_) => {
                    catalog[k].line_num = UNRESOLVED;
                },
            }
        }
        k += 1;
    }
    proof {
        assert(catalog_view(catalog@) =~= resolve(views, before, first as int));
    }
}

/// The number of lines by which the end of the range of the book with this
/// title is moved back.
pub fn correction_for(title: &str) -> (r: usize)
    ensures
        r == end_correction(title@),
{
    let hay = to_chars(title);
    let needle = to_chars("Malachi");
    if contains_chars(hay.as_slice(), needle.as_slice()) {
        LATE_HEADING_LINES
    } else {
        0
    }
}

/// The heading lines of the books of `catalog` whose heading was found, and
/// the corrections of these books, both in the catalog's order.
fn resolved_starts(catalog: &Vec<BookIndex>) -> (r: (Vec<usize>, Vec<usize>))
    ensures
        r.0@.len() == resolved_books(catalog_view(catalog@)).len(),
        r.1@.len() == r.0@.len(),
        forall|k: int|
            0 <= k < r.0@.len() ==> #[trigger] r.0@[k] == resolved_books(
                catalog_view(catalog@),
            )[k].line_num,
        forall|k: int|
            0 <= k < r.1@.len() ==> #[trigger] r.1@[k] == end_correction(
                resolved_books(catalog_view(catalog@))[k].title,
            ),
{
    let ghost view = catalog_view(catalog@);
    let mut starts: Vec<usize> = Vec::new();
    let mut backs: Vec<usize> = Vec::new();
    let mut i: usize = 0;
    while i < catalog.len()
        invariant
            i <= catalog.len(),
            view == catalog_view(catalog@),
            starts@.len() == resolved_books(view.take(i as int)).len(),
            backs@.len() == starts@.len(),
            forall|k: int|
                0 <= k < starts@.len() ==> #[trigger] starts@[k] == resolved_books(
                    view.take(i as int),
                )[k].line_num,
            forall|k: int|
                0 <= k < backs@.len() ==> #[trigger] backs@[k] == end_correction(
                    resolved_books(view.take(i as int))[k].title,
                ),
        decreases catalog.len() - i,
    {
        proof {
            assert(view.take(i + 1).drop_last() =~= view.take(i as int));
            assert(view.take(i + 1).last() == catalog@[i as int]@);
        }
        if catalog[i].is_book && catalog[i].line_num != UNRESOLVED {
            starts.push(catalog[i].line_num);
            backs.push(correction_for(catalog[i].title.as_str()));
        }
        i += 1;
    }
    proof {
        assert(view.take(catalog.len() as int) =~= view);
    }
    (starts, backs)
}

/// The body of the range from `start` to `end`.
pub fn join_body(lines: &[String], start: usize, end: usize) -> (r: String)
    ensures
        r@ == body_of(line_views(lines@), start, end),
{
    let ghost views = line_views(lines@);
    if end == 0 {
        return String::new();
    }
    let hi: usize = if end - 1 <= lines.len() {
        end - 1
    } else {
        lines.len()
    };
    if hi == 0 || start >= hi - 1 {
        return String::new();
    }
    let lo: usize = start + 1;
    let mut out = String::from_str(lines[lo].as_str());
    let mut j: usize = lo + 1;
    proof {
        assert(views[lo as int] == lines@[lo as int]@);
    }
    while j < hi
        invariant
            lo < j <= hi <= lines.len(),
            views == line_views(lines@),
            out@ == join_lines(views, lo as int, j as int),
        decreases hi - j,
    {
        proof {
            reveal_strlit(" ");
            assert(" "@ =~= seq![' ']);
            assert(views[j as int] == lines@[j as int]@);
            assert(out@ + " "@ =~= out@.push(' '));
        }
        out.append(" ");
        out.append(lines[j].as_str());
        j += 1;
    }
    out
}

/// What becomes of a catalog and of the ranges of its books when the
/// headings are sought: the catalog with the lines found, and the ranges of
/// the books whose heading was found. Without a marker entry for the end of
/// the list of books nothing is sought.
pub open spec fn resolution(lines: Seq<Seq<char>>, catalog: Seq<BookIndexView>) -> (
    Seq<BookIndexView>,
    Result<Seq<TextView>, Violation>,
) {
    match boundary_line(catalog, LIST_END_ROLE) {
        None => (catalog, Err(Violation::MissingBoundary)),
        Some(ent) => {
            let resolved = resolve(lines, catalog, search_from(lines, ent));
            (resolved, texts_of(lines, resolved_books(resolved), text_end(lines, catalog)))
        },
    }
}

/// The ranges of a result, each by what it holds.
pub open spec fn texts_result_view(r: Result<Vec<TextIndex>, Violation>) -> Result<
    Seq<TextView>,
    Violation,
> {
    match r {
        Ok(texts) => Ok(text_views(texts@)),
        Err(e) => Err(e),
    }
}

/// Seeks the heading of each book of the catalog in the body of the text,
/// writes the lines found into the catalog, and gives the range of each book
/// whose heading was found, with its body and its verses.
#[verifier::loop_isolation(false)]
pub fn book_texts(lines: &[String], book_indexes: &mut Vec<BookIndex>) -> (r: Result<
    Vec<TextIndex>,
    Violation,
>)
    ensures
        (catalog_view(final(book_indexes)@), texts_result_view(r)) == resolution(
            line_views(lines@),
            catalog_view(old(book_indexes)@),
        ),
        r matches Ok(texts) ==> forall|i: int, j: int|
            0 <= i < j < texts@.len() ==> (#[trigger] texts@[i]).start_num < (
            #[trigger] texts@[j]).start_num,
{
    let ghost views = line_views(lines@);
    let ghost before = catalog_view(book_indexes@);
    let count = lines.len();
    proof {
        assert(views.len() == count);
        lemma_one_range_per_book(views, before);
    }
    let ent = match find_boundary(book_indexes, LIST_END_ROLE) {
        Some(ent) => ent,
        None => {
            return Err(Violation::MissingBoundary);
        },
    };
    let end = match find_boundary(book_indexes, TEXT_END_ROLE) {
        Some(end) => end,
        None => count,
    };
    let first: usize = if ent < count {
        ent + 1
    } else {
        count
    };
    resolve_lines(lines, book_indexes, first);
    let ghost books = resolved_books(catalog_view(book_indexes@));
    let (starts, backs) = resolved_starts(book_indexes);
    let mut texts: Vec<TextIndex> = Vec::new();
    let mut k: usize = 0;
    while k < starts.len()
        invariant
            k <= starts.len(),
            views == line_views(lines@),
            starts@.len() == books.len(),
            backs@.len() == books.len(),
            forall|j: int| 0 <= j < books.len() ==> #[trigger] starts@[j] == books[j].line_num,
            forall|j: int|
                0 <= j < books.len() ==> #[trigger] backs@[j] == end_correction(books[j].title),
            texts@.len() == k,
            k > 0 ==> pattern_compiles(anchor_pattern()),
            forall|j: int| 0 <= j < k ==> (#[trigger] texts@[j])@ == text_of(views, books, j, end),
        decreases starts.len() - k,
    {
        let start = starts[k];
        let stop: usize = if k + 1 < starts.len() {
            let next = starts[k + 1];
            let back = backs[k];
            if next >= back {
                next - back
            } else {
                0
            }
        } else {
            end
        };
        let body = join_body(lines, start, stop);
        let verses = match extract_verses(body.as_str()) {
            Ok(verses) => verses,
            Err(e) => {
                return Err(e);
            },
        };
        texts.push(TextIndex { start_num: start, end_num: stop, body_text: body, verses });
        k += 1;
    }
    proof {
        assert(text_views(texts@) =~= Seq::new(books.len(), |j: int| text_of(views, books, j, end)));
        assert forall|i: int, j: int| 0 <= i < j < texts@.len() implies (
        #[trigger] texts@[i]).start_num < (#[trigger] texts@[j]).start_num by {
            assert(text_views(texts@)[i] == texts@[i]@);
            assert(text_views(texts@)[j] == texts@[j]@);
        }
    }
    Ok(texts)
}

/// Seeking the headings changes nothing of a catalog but the lines of its
/// books: it keeps its length and its order, every entry keeps its title, its
/// number and its kind, and a marker entry keeps its line too.
pub proof fn lemma_resolve_changes_lines_only(
    lines: Seq<Seq<char>>,
    catalog: Seq<BookIndexView>,
    first: int,
)
    ensures
        resolve(lines, catalog, first).len() == catalog.len(),
        forall|k: int|
            0 <= k < catalog.len() ==> {
                let entry = #[trigger] resolve(lines, catalog, first)[k];
                &&& entry.title == catalog[k].title
                &&& entry.bidx == catalog[k].bidx
                &&& entry.is_book == catalog[k].is_book
                &&& !entry.is_book ==> entry.line_num == catalog[k].line_num
            },
{
}

/// Among the first `k` entries of a catalog whose headings were sought, the
/// books whose heading was found stand on strictly increasing lines, all of
/// them before the place where the search then stands.
proof fn lemma_prefix_increases(
    lines: Seq<Seq<char>>,
    catalog: Seq<BookIndexView>,
    first: int,
    k: int,
)
    requires
        0 <= first,
        first >= 1 || lines.len() == 0,
        lines.len() <= usize::MAX,
        0 <= k <= catalog.len(),
    ensures
        ({
            let books = resolved_books(resolve(lines, catalog, first).take(k));
            let cursor = cursor_after(lines, catalog, first, k);
            &&& first <= cursor
            &&& forall|i: int| 0 <= i < books.len() ==> first <= (#[trigger] books[i]).line_num < cursor
            &&& forall|i: int, j: int|
                0 <= i < j < books.len() ==> (#[trigger] books[i]).line_num < (
                #[trigger] books[j]).line_num
        }),
    decreases k,
{
    let all = resolve(lines, catalog, first);
    if k > 0 {
        lemma_prefix_increases(lines, catalog, first, k - 1);
        assert(all.take(k).drop_last() =~= all.take(k - 1));
        assert(all.take(k).last() == resolved_entry(lines, catalog, first, k - 1));
        let cursor = cursor_after(lines, catalog, first, k - 1);
        lemma_locate_first(catalog[k - 1].title, lines, cursor);
        let before = resolved_books(all.take(k - 1));
        let books = resolved_books(all.take(k));
        let entry = all.take(k).last();
        if is_resolved(entry) {
            assert(books == before.push(entry));
            assert(locate(catalog[k - 1].title, lines, cursor) is Some);
            let found = locate(catalog[k - 1].title, lines, cursor)->0;
            assert(entry.line_num == found);
            assert forall|i: int, j: int| 0 <= i < j < books.len() implies (
            #[trigger] books[i]).line_num < (#[trigger] books[j]).line_num by {
                assert(books[i] == before[i]);
                if j < before.len() {
                    assert(books[j] == before[j]);
                }
            }
            assert forall|i: int| 0 <= i < books.len() implies first <= (
            #[trigger] books[i]).line_num < found + 1 by {
                if i < before.len() {
                    assert(books[i] == before[i]);
                }
            }
        } else {
            assert(books == before);
            assert forall|i: int| 0 <= i < books.len() implies first <= (
            #[trigger] books[i]).line_num < cursor_after(lines, catalog, first, k) by {
                assert(books[i] == before[i]);
            }
        }
    }
}

/// The books whose heading was found stand on strictly increasing lines, in
/// the catalog's order, none before the line where the search started.
pub proof fn lemma_starts_increase(lines: Seq<Seq<char>>, catalog: Seq<BookIndexView>, first: int)
    requires
        0 <= first,
        first >= 1 || lines.len() == 0,
        lines.len() <= usize::MAX,
    ensures
        ({
            let books = resolved_books(resolve(lines, catalog, first));
            &&& forall|i: int| 0 <= i < books.len() ==> first <= (#[trigger] books[i]).line_num
            &&& forall|i: int, j: int|
                0 <= i < j < books.len() ==> (#[trigger] books[i]).line_num < (
                #[trigger] books[j]).line_num
        }),
{
    lemma_prefix_increases(lines, catalog, first, catalog.len() as int);
    let all = resolve(lines, catalog, first);
    assert(all.take(catalog.len() as int) =~= all);
}

/// Where the ranges of a catalog can be had, there is one for each book
/// whose heading was found, in the catalog's order, and it starts at that
/// heading; the starts increase strictly, so that exactly one range starts at
/// the line of each such book; and the last range ends where the text ends.
pub proof fn lemma_one_range_per_book(lines: Seq<Seq<char>>, catalog: Seq<BookIndexView>)
    requires
        lines.len() <= usize::MAX,
    ensures
        match resolution(lines, catalog).1 {
            Ok(texts) => {
                let books = resolved_books(resolution(lines, catalog).0);
                &&& texts.len() == books.len()
                &&& forall|k: int|
                    0 <= k < books.len() ==> (#[trigger] texts[k]).start_num == books[k].line_num
                &&& forall|i: int, j: int|
                    0 <= i < j < texts.len() ==> (#[trigger] texts[i]).start_num < (
                    #[trigger] texts[j]).start_num
                &&& forall|k: int, j: int|
                    0 <= k < books.len() && 0 <= j < texts.len() ==> ((#[trigger] texts[j]).start_num
                        == (#[trigger] books[k]).line_num <==> j == k)
                &&& texts.len() > 0 ==> texts.last().end_num == text_end(lines, catalog)
            },
            Err(_) => true,
        },
{
    match boundary_line(catalog, LIST_END_ROLE) {
        None => {},
        Some(ent) => {
            let first = search_from(lines, ent);
            lemma_starts_increase(lines, catalog, first);
            let books = resolved_books(resolve(lines, catalog, first));
            if let Ok(texts) = resolution(lines, catalog).1 {
                assert forall|k: int| 0 <= k < books.len() implies (#[trigger] texts[k]).start_num
                    == books[k].line_num by {
                    assert(texts[k] == text_of(lines, books, k, text_end(lines, catalog)));
                }
                assert forall|k: int, j: int|
                    0 <= k < books.len() && 0 <= j < texts.len() implies ((
                #[trigger] texts[j]).start_num == (#[trigger] books[k]).line_num <==> j == k) by {
                    assert(texts[j].start_num == books[j].line_num);
                    assert(texts[k].start_num == books[k].line_num);
                    if j < k {
                        assert(books[j].line_num < books[k].line_num);
                    }
                    if k < j {
                        assert(books[k].line_num < books[j].line_num);
                    }
                }
            }
        },
    }
}

/// Two runs on the same lines and the same catalog give the same catalog and
/// the same ranges, with the same bodies and the same verses.
pub proof fn lemma_runs_agree(
    lines: Seq<Seq<char>>,
    catalog: Seq<BookIndexView>,
    once: (Seq<BookIndexView>, Result<Seq<TextView>, Violation>),
    again: (Seq<BookIndexView>, Result<Seq<TextView>, Violation>),
)
    requires
        once == resolution(lines, catalog),
        again == resolution(lines, catalog),
    ensures
        once == again,
{
}

} // verus!
