use vstd::prelude::*;
use vstd::string::StringExecFns;
use crate::text::{normalize, contains, line_views, to_chars, from_chars, normalize_chars, contains_chars};

verus! {

/// Whether `line` carries `marker`: whether, once normalized, it contains it.
pub open spec fn line_matches(marker: Seq<char>, line: Seq<char>) -> bool {
    contains(normalize(line), marker)
}

/// The first line at or after `start` that carries `marker`, if there is one.
pub open spec fn locate(marker: Seq<char>, lines: Seq<Seq<char>>, start: int) -> Option<int>
    decreases lines.len() - start,
{
    if start < 0 || start >= lines.len() {
        None
    } else if line_matches(marker, lines[start]) {
        Some(start)
    } else {
        locate(marker, lines, start + 1)
    }
}

/// What a search reports when no line carries `marker`.
pub open spec fn not_found_message(marker: Seq<char>) -> Seq<char> {
    "Failed: to find marker ["@ + marker + "]!"@
}

/// A search that succeeds gives a line at or after its start that carries the
/// marker, and no line between the start and it does; one that fails had no
/// such line from its start on.
pub proof fn lemma_locate_first(marker: Seq<char>, lines: Seq<Seq<char>>, start: int)
    requires
        0 <= start,
    ensures
        match locate(marker, lines, start) {
            Some(i) => {
                &&& start <= i < lines.len()
                &&& line_matches(marker, lines[i])
                &&& forall|j: int| start <= j < i ==> !line_matches(marker, #[trigger] lines[j])
            },
            None => forall|j: int|
                start <= j < lines.len() ==> !line_matches(marker, #[trigger] lines[j]),
        },
    decreases lines.len() - start,
{
    if start < lines.len() && !line_matches(marker, lines[start]) {
        lemma_locate_first(marker, lines, start + 1);
    }
}

/// A search gives the same line from every start between its own start and
/// the line it finds, and finds nothing from a start past the last line that
/// carries the marker.
pub proof fn lemma_locate_stable(
    marker: Seq<char>,
    lines: Seq<Seq<char>>,
    start: int,
    later: int,
)
    requires
        0 <= start <= later,
    ensures
        match locate(marker, lines, start) {
            Some(i) => later <= i ==> locate(marker, lines, later) == Some(i),
            None => locate(marker, lines, later) is None,
        },
        (forall|j: int| later <= j < lines.len() ==> !line_matches(marker, #[trigger] lines[j]))
            ==> locate(marker, lines, later) is None,
    decreases later - start,
{
    lemma_locate_first(marker, lines, later);
    if start < later {
        lemma_locate_first(marker, lines, start);
        lemma_locate_stable(marker, lines, start + 1, later);
    }
}

/// A search that starts past the end finds nothing.
pub proof fn lemma_locate_past_end(marker: Seq<char>, lines: Seq<Seq<char>>, start: int)
    requires
        start >= lines.len(),
    ensures
        locate(marker, lines, start) is None,
{
}

/// The words of `word`, joined by single spaces.
pub fn normalize_string(word: &String) -> (r: String)
    ensures
        r@ == normalize(word@),
{
    let cs = to_chars(word.as_str());
    let out = normalize_chars(cs.as_slice());
    let r = from_chars(out.as_slice(), 0, out.len());
    proof {
        assert(out@.subrange(0, out.len() as int) =~= out@);
    }
    r
}

/// The first line at or after `start` that carries `marker`; without one,
/// the message that names the marker.
pub fn start_of(marker: &str, lines: &[String], start: usize) -> (r: Result<usize, String>)
    ensures
        match r {
            Ok(i) => locate(marker@, line_views(lines@), start as int) == Some(i as int),
            Err(msg) => locate(marker@, line_views(lines@), start as int) is None && msg@
                == not_found_message(marker@),
        },
        start >= lines.len() ==> r is Err,
{
    let needle = to_chars(marker);
    let ghost views = line_views(lines@);
    let mut i: usize = start;
    while i < lines.len()
        invariant
            start <= i,
            needle@ == marker@,
            views == line_views(lines@),
            locate(marker@, views, start as int) == locate(marker@, views, i as int),
        decreases lines.len() - i,
    {
        let cs = to_chars(lines[i].as_str());
        let norm = normalize_chars(cs.as_slice());
        assert(views[i as int] == lines@[i as int]@);
        if contains_chars(norm.as_slice(), needle.as_slice()) {
            return Ok(i);
        }
        i += 1;
    }
    let msg = String::from_str("Failed: to find marker [").concat(marker).concat("]!");
    Err(msg)
}

/// The line that opens the list of the Old Testament's books, and later the
/// body of the text.
pub open spec fn old_testament_marker() -> Seq<char> {
    "The Old Testament of the King James Version of the Bible"@
}

/// The line that opens the list of the New Testament's books.
pub open spec fn new_testament_marker() -> Seq<char> {
    "The New Testament of the King James Bible"@
}

/// The line that closes the text.
pub open spec fn end_marker() -> Seq<char> {
    "*** END OF THE PROJECT GUTENBERG EBOOK THE KING JAMES BIBLE ***"@
}

/// The four boundaries of a text: the start of the list of the Old
/// Testament's books, the start of the list of the New Testament's books, the
/// end of that list, and the end of the text, each sought from the line after
/// the one before it. Without one of them, the message that names its marker.
pub open spec fn boundaries(lines: Seq<Seq<char>>) -> Result<(int, int, int, int), Seq<char>> {
    match locate(old_testament_marker(), lines, 0) {
        None => Err(not_found_message(old_testament_marker())),
        Some(ot) => match locate(new_testament_marker(), lines, ot + 1) {
            None => Err(not_found_message(new_testament_marker())),
            Some(nt) => match locate(old_testament_marker(), lines, nt + 1) {
                None => Err(not_found_message(old_testament_marker())),
                Some(ent) => match locate(end_marker(), lines, ent + 1) {
                    None => Err(not_found_message(end_marker())),
                    Some(end) => Ok((ot, nt, ent, end)),
                },
            },
        },
    }
}

/// The four boundaries come in strictly increasing order and lie within the
/// text.
pub proof fn lemma_boundaries_ordered(lines: Seq<Seq<char>>)
    ensures
        match boundaries(lines) {
            Ok(b) => 0 <= b.0 < b.1 < b.2 < b.3 < lines.len(),
            Err(_) => true,
        },
{
    lemma_locate_first(old_testament_marker(), lines, 0);
    if let Some(ot) = locate(old_testament_marker(), lines, 0) {
        lemma_locate_first(new_testament_marker(), lines, ot + 1);
        if let Some(nt) = locate(new_testament_marker(), lines, ot + 1) {
            lemma_locate_first(old_testament_marker(), lines, nt + 1);
            if let Some(ent) = locate(old_testament_marker(), lines, nt + 1) {
                lemma_locate_first(end_marker(), lines, ent + 1);
            }
        }
    }
}

/// Finds the four boundaries of a text, or names the marker that is missing.
pub fn find_bible_markers(lines: &[String]) -> (r: Result<(usize, usize, usize, usize), String>)
    ensures
        match r {
            Ok(b) => boundaries(line_views(lines@)) == Ok::<(int, int, int, int), Seq<char>>(
                (b.0 as int, b.1 as int, b.2 as int, b.3 as int),
            ) && b.0 < b.1 < b.2 < b.3 < lines.len(),
            Err(msg) => boundaries(line_views(lines@)) == Err::<(int, int, int, int), Seq<char>>(
                msg@,
            ),
        },
{
    proof {
        lemma_boundaries_ordered(line_views(lines@));
    }
    let ot = match start_of("The Old Testament of the King James Version of the Bible", lines, 0) {
        Ok(i) => i,
        Err(e) => {
            return Err(e);
        },
    };
    proof {
        lemma_locate_first(old_testament_marker(), line_views(lines@), 0);
    }
    let nt = match start_of("The New Testament of the King James Bible", lines, ot + 1) {
        Ok(i) => i,
        Err(e) => {
            return Err(e);
        },
    };
    proof {
        lemma_locate_first(new_testament_marker(), line_views(lines@), ot + 1);
    }
    let ent = match start_of(
        "The Old Testament of the King James Version of the Bible",
        lines,
        nt + 1,
    ) {
        Ok(i) => i,
        Err(e) => {
            return Err(e);
        },
    };
    proof {
        lemma_locate_first(old_testament_marker(), line_views(lines@), nt + 1);
    }
    let end = match start_of(
        "*** END OF THE PROJECT GUTENBERG EBOOK THE KING JAMES BIBLE ***",
        lines,
        ent + 1,
    ) {
        Ok(i) => i,
        Err(e) => {
            return Err(e);
        },
    };
    Ok((ot, nt, ent, end))
}

} // verus!
