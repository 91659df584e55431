use vstd::prelude::*;
use vstd::string::StringExecFns;
use crate::common::{BookIndex, BookIndexView, catalog_view, UNRESOLVED};
use crate::marker::{boundaries, find_bible_markers};
use crate::text::{
    trim, trimmed_lines, line_views, to_chars, from_chars, trim_bounds, lemma_trimmed_lines_len,
};

verus! {

/// The book entries of one testament: one for each title, in order, numbered
/// from 1, with no line yet.
pub open spec fn numbered(titles: Seq<Seq<char>>) -> Seq<BookIndexView> {
    Seq::new(
        titles.len(),
        |k: int|
            BookIndexView {
                bidx: (k + 1) as usize,
                title: titles[k],
                is_book: true,
                line_num: UNRESOLVED,
            },
    )
}

/// The four marker entries, with the roles 1 to 4.
pub open spec fn marker_entries(ot: int, nt: int, ent: int, end: int) -> Seq<BookIndexView> {
    seq![
        BookIndexView {
            bidx: 1,
            title: "Start Old Testament Books"@,
            is_book: false,
            line_num: ot as usize,
        },
        BookIndexView {
            bidx: 2,
            title: "Start New Testament Books"@,
            is_book: false,
            line_num: nt as usize,
        },
        BookIndexView {
            bidx: 3,
            title: "End New Testament Books"@,
            is_book: false,
            line_num: ent as usize,
        },
        BookIndexView { bidx: 4, title: "End Bible Text"@, is_book: false, line_num: end as usize },
    ]
}

/// The catalog of a text with the given boundaries: the four marker entries,
/// then the books listed between the first and the second boundary, then
/// those listed between the second and the third.
pub open spec fn catalog_of(lines: Seq<Seq<char>>, ot: int, nt: int, ent: int, end: int) -> Seq<
    BookIndexView,
> {
    marker_entries(ot, nt, ent, end) + numbered(trimmed_lines(lines, ot + 1, nt)) + numbered(
        trimmed_lines(lines, nt + 1, ent),
    )
}

/// A catalog begins with the four marker entries, in the order of their
/// roles; every entry after them is a book; and the books of each testament
/// are numbered 1, 2, 3 and so on, in the order in which they are listed.
pub proof fn lemma_catalog_numbering(lines: Seq<Seq<char>>, ot: int, nt: int, ent: int, end: int)
    requires
        0 <= ot,
        0 <= nt,
        nt <= usize::MAX,
        ent <= usize::MAX,
    ensures
        ({
            let catalog = catalog_of(lines, ot, nt, ent, end);
            let first = trimmed_lines(lines, ot + 1, nt).len();
            let second = trimmed_lines(lines, nt + 1, ent).len();
            &&& catalog.len() == 4 + first + second
            &&& forall|k: int| 0 <= k < 4 ==> !(#[trigger] catalog[k]).is_book && catalog[k].bidx == k + 1
            &&& forall|k: int|
                0 <= k < first ==> (#[trigger] catalog[4 + k]).is_book && catalog[4 + k].bidx == k
                    + 1
            &&& forall|k: int|
                0 <= k < second ==> (#[trigger] catalog[4 + first + k]).is_book && catalog[4 + first
                    + k].bidx == k + 1
        }),
{
    lemma_trimmed_lines_len(lines, ot + 1, nt);
    lemma_trimmed_lines_len(lines, nt + 1, ent);
    let catalog = catalog_of(lines, ot, nt, ent, end);
    let first = trimmed_lines(lines, ot + 1, nt);
    let second = trimmed_lines(lines, nt + 1, ent);
    assert forall|k: int| 0 <= k < first.len() implies (#[trigger] catalog[4 + k]).is_book
        && catalog[4 + k].bidx == k + 1 by {
        assert(catalog[4 + k] == numbered(first)[k]);
    }
    assert forall|k: int| 0 <= k < second.len() implies (#[trigger] catalog[4 + first.len()
        + k]).is_book && catalog[4 + first.len() + k].bidx == k + 1 by {
        assert(catalog[4 + first.len() + k] == numbered(second)[k]);
    }
}

/// Adds to `books` the entries of the books listed on the lines from `lo` up
/// to, not including, `hi`.
fn push_window(lines: &[String], lo: usize, hi: usize, books: &mut Vec<BookIndex>)
    requires
        lo <= hi <= lines.len(),
    ensures
        catalog_view(final(books)@) == catalog_view(old(books)@) + numbered(
            trimmed_lines(line_views(lines@), lo as int, hi as int),
        ),
{
    let ghost views = line_views(lines@);
    let ghost before = catalog_view(books@);
    let mut count: usize = 0;
    let mut j: usize = lo;
    proof {
        assert(numbered(trimmed_lines(views, lo as int, lo as int)) =~= Seq::empty());
        assert(before + Seq::<BookIndexView>::empty() =~= before);
    }
    while j < hi
        invariant
            lo <= j <= hi <= lines.len(),
            views == line_views(lines@),
            count == trimmed_lines(views, lo as int, j as int).len(),
            count <= j - lo,
            catalog_view(books@) == before + numbered(trimmed_lines(views, lo as int, j as int)),
        decreases hi - j,
    {
        let cs = to_chars(lines[j].as_str());
        let (a, b) = trim_bounds(cs.as_slice(), 0, cs.len());
        proof {
            assert(cs@.subrange(0, cs.len() as int) =~= cs@);
            assert(views[j as int] == cs@);
        }
        if a < b {
            let title = from_chars(cs.as_slice(), a, b);
            let ghost prior = books@;
            let ghost titles = trimmed_lines(views, lo as int, j as int);
            count += 1;
            books.push(BookIndex { bidx: count, title, is_book: true, line_num: UNRESOLVED });
            proof {
                let now = trimmed_lines(views, lo as int, j + 1);
                assert(now == titles.push(trim(views[j as int])));
                assert(catalog_view(books@) =~= catalog_view(prior).push(books@.last()@));
                assert(numbered(now) =~= numbered(titles).push(books@.last()@));
                assert(before + numbered(now) =~= (before + numbered(titles)).push(
                    books@.last()@,
                ));
            }
        }
        j += 1;
    }
}

/// Builds the catalog of a text from its four boundaries.
pub fn build_catalog(lines: &[String], ot: usize, nt: usize, ent: usize, end: usize) -> (r: Vec<
    BookIndex,
>)
    requires
        ot < nt < ent <= lines.len(),
    ensures
        catalog_view(r@) == catalog_of(
            line_views(lines@),
            ot as int,
            nt as int,
            ent as int,
            end as int,
        ),
{
    let mut books: Vec<BookIndex> = Vec::new();
    books.push(
        BookIndex {
            bidx: 1,
            title: String::from_str("Start Old Testament Books"),
            is_book: false,
            line_num: ot,
        },
    );
    books.push(
        BookIndex {
            bidx: 2,
            title: String::from_str("Start New Testament Books"),
            is_book: false,
            line_num: nt,
        },
    );
    books.push(
        BookIndex {
            bidx: 3,
            title: String::from_str("End New Testament Books"),
            is_book: false,
            line_num: ent,
        },
    );
    books.push(
        BookIndex {
            bidx: 4,
            title: String::from_str("End Bible Text"),
            is_book: false,
            line_num: end,
        },
    );
    proof {
        assert(catalog_view(books@) =~= marker_entries(
            ot as int,
            nt as int,
            ent as int,
            end as int,
        ));
    }
    push_window(lines, ot + 1, nt, &mut books);
    push_window(lines, nt + 1, ent, &mut books);
    books
}

/// Finds the boundaries of a text and builds its catalog; without one of the
/// boundaries, gives the message that names the missing marker.
pub fn find_list_books(lines: &[String]) -> (r: Result<Vec<BookIndex>, String>)
    ensures
        match boundaries(line_views(lines@)) {
            Ok(b) => r matches Ok(catalog) && catalog_view(catalog@) == catalog_of(
                line_views(lines@),
                b.0,
                b.1,
                b.2,
                b.3,
            ),
            Err(msg) => r matches Err(e) && e@ == msg,
        },
{
    match find_bible_markers(lines) {
        Ok((ot, nt, ent, end)) => Ok(build_catalog(lines, ot, nt, ent, end)),
        Err(e) => Err(e),
    }
}

} // verus!
