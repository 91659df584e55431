use vstd::prelude::*;
use vstd::slice::slice_subrange;
use crate::common::{VerseInfo, VerseView, Violation, verse_views};
use crate::text::{trim, to_chars, from_chars, trim_bounds};

verus! {

/// Whether `c` is one of the digits 0 to 9.
pub open spec fn is_digit(c: char) -> bool {
    '0' <= c && c <= '9'
}

/// The end of the run of digits of `s` that starts at `from`.
pub open spec fn digits_end(s: Seq<char>, from: int) -> int
    decreases s.len() - from,
{
    if 0 <= from < s.len() && is_digit(s[from]) {
        digits_end(s, from + 1)
    } else {
        from
    }
}

/// The number that the digits `s` write in base 10.
pub open spec fn number(s: Seq<char>) -> nat
    decreases s.len(),
{
    if s.len() == 0 {
        0
    } else {
        (number(s.drop_last()) * 10 + (s.last() as nat - '0' as nat)) as nat
    }
}

/// The verse that a segment holds. A segment holds one where it begins with
/// an anchor: digits, a colon and digits again, both numbers within `usize`.
/// The verse's text is what follows the anchor, trimmed.
pub open spec fn parse_segment(seg: Seq<char>) -> Option<VerseView> {
    let a = digits_end(seg, 0);
    let b = digits_end(seg, a + 1);
    if a == 0 || a >= seg.len() || seg[a] != ':' || b == a + 1 {
        None
    } else {
        let chapter = number(seg.subrange(0, a));
        let verse = number(seg.subrange(a + 1, b));
        if chapter > usize::MAX || verse > usize::MAX {
            None
        } else {
            Some(
                VerseView {
                    chapter: chapter as usize,
                    verse: verse as usize,
                    text: trim(seg.skip(b)),
                },
            )
        }
    }
}

/// The character that closes a segment of a marked text.
pub open spec fn delimiter() -> char {
    '~'
}

/// Where the segment begins that is open after the first `k` characters of
/// `m`: behind the last delimiter among them.
pub open spec fn segment_start(m: Seq<char>, k: int) -> int
    decreases k,
{
    if k <= 0 {
        0
    } else if m[k - 1] == delimiter() {
        k
    } else {
        segment_start(m, k - 1)
    }
}

/// The verses of the segments that a delimiter closes within the first `k`
/// characters of `m`, in order.
pub open spec fn verses_upto(m: Seq<char>, k: int) -> Seq<VerseView>
    decreases k,
{
    if k <= 0 {
        Seq::empty()
    } else {
        let before = verses_upto(m, k - 1);
        if m[k - 1] == delimiter() {
            match parse_segment(m.subrange(segment_start(m, k - 1), k - 1)) {
                Some(v) => before.push(v),
                None => before,
            }
        } else {
            before
        }
    }
}

/// The verses of a marked text: those of its segments, in order, the text
/// being closed by one more delimiter.
pub open spec fn verses_of_marked(marked: Seq<char>) -> Seq<VerseView> {
    verses_upto(marked.push(delimiter()), marked.len() as int + 1)
}

/// The pattern of an anchor.
pub open spec fn anchor_pattern() -> Seq<char> {
    "(?P<chapter>\\d+):(?P<verse>\\d+)"@
}

/// What takes the place of an anchor in a marked text: a delimiter and the
/// anchor itself.
pub open spec fn anchor_replacement() -> Seq<char> {
    "~${chapter}:${verse}"@
}

/// Whether the regex engine accepts `pattern`: whether `regex::Regex::new`
/// returns a regex for it.
pub uninterp spec fn pattern_compiles(pattern: Seq<char>) -> bool;

/// The text that `regex::Regex::replace_all` returns for `haystack` and
/// `replacement`, on the regex of `pattern`.
pub uninterp spec fn replaced_text(
    pattern: Seq<char>,
    haystack: Seq<char>,
    replacement: Seq<char>,
) -> Seq<char>;

/// The error of `regex::Regex::new`.
#[verifier::external_type_specification]
#[verifier::external_body]
pub struct ExRegexError(regex::Error);

/// Compiles `pattern` with `regex::Regex::new` and rewrites `haystack` with
/// `regex::Regex::replace_all` on the regex it got. Both happen in one call,
/// so that the contract speaks of the three strings alone. It gives the two
/// results a name and says nothing else of them: the call succeeds where the
/// engine accepts the pattern, and then returns the text that the engine
/// computes from the three strings.
#[verifier::external_body]
fn replace_all(pattern: &str, haystack: &str, replacement: &str) -> (r: Result<
    String,
    regex::Error,
>)
    ensures
        r is Ok <==> pattern_compiles(pattern@),
        r matches Ok(s) ==> s@ == replaced_text(pattern@, haystack@, replacement@),
{
    match regex::Regex::new(pattern) {
        Ok(re) => Ok(re.replace_all(haystack, replacement).into_owned()),
        Err(e) => Err(e),
    }
}

/// A number does not shrink when a digit is added to it.
proof fn lemma_number_grows(s: Seq<char>)
    requires
        s.len() > 0,
        is_digit(s.last()),
    ensures
        number(s) >= number(s.drop_last()),
        number(s) == number(s.drop_last()) * 10 + (s.last() as nat - '0' as nat),
{
}

/// Reads the run of digits of `seg` that starts at `from`: its end, and the
/// number it writes where that number is within `usize`.
fn read_number(seg: &[char], from: usize) -> (r: (usize, Option<usize>))
    requires
        from <= seg.len(),
    ensures
        r.0 == digits_end(seg@, from as int),
        from <= r.0 <= seg.len(),
        match r.1 {
            Some(v) => v == number(seg@.subrange(from as int, r.0 as int)),
            None => number(seg@.subrange(from as int, r.0 as int)) > usize::MAX,
        },
{
    let mut i: usize = from;
    let mut acc: usize = 0;
    let mut fits: bool = true;
    proof {
        assert(seg@.subrange(from as int, from as int) =~= Seq::empty());
    }
    while i < seg.len() && '0' <= seg[i] && seg[i] <= '9'
        invariant
            from <= i <= seg.len(),
            digits_end(seg@, from as int) == digits_end(seg@, i as int),
            fits ==> acc == number(seg@.subrange(from as int, i as int)),
            !fits ==> number(seg@.subrange(from as int, i as int)) > usize::MAX,
        decreases seg.len() - i,
    {
        let d: usize = (seg[i] as u32 - '0' as u32) as usize;
        proof {
            let s = seg@.subrange(from as int, i + 1);
            assert(s.drop_last() =~= seg@.subrange(from as int, i as int));
            assert(s.last() == seg@[i as int]);
            lemma_number_grows(s);
        }
        if fits {
            match acc.checked_mul(10) {
                Some(m) => match m.checked_add(d) {
                    Some(v) => {
                        acc = v;
                    },
                    None => {
                        fits = false;
                    },
                },
                None => {
                    fits = false;
                },
            }
        }
        i += 1;
    }
    if fits {
        (i, Some(acc))
    } else {
        (i, None)
    }
}

/// Reads the verse that a segment holds, if it holds one.
pub fn read_segment(seg: &[char]) -> (r: Option<VerseInfo>)
    ensures
        match parse_segment(seg@) {
            Some(v) => r matches Some(info) && info@ == v,
            None => r is None,
        },
{
    let (a, chapter) = read_number(seg, 0);
    if a == 0 || a >= seg.len() || seg[a] != ':' {
        return None;
    }
    let (b, verse) = read_number(seg, a + 1);
    if b == a + 1 {
        return None;
    }
    match (chapter, verse) {
        (Some(chapter), Some(verse)) => {
            let (lo, hi) = trim_bounds(seg, b, seg.len());
            let text = from_chars(seg, lo, hi);
            proof {
                assert(seg@.skip(b as int) =~= seg@.subrange(b as int, seg.len() as int));
            }
            Some(VerseInfo { chapter, verse, text })
        },
        _ => None,
    }
}

/// Reads the verses of a marked text: a text in which a delimiter stands
/// before each anchor.
pub fn split_verses(marked: &str) -> (r: Vec<VerseInfo>)
    ensures
        verse_views(r@) == verses_of_marked(marked@),
{
    let mut cs = to_chars(marked);
    cs.push('~');
    let ghost m = cs@;
    let mut out: Vec<VerseInfo> = Vec::new();
    let mut start: usize = 0;
    let mut k: usize = 0;
    proof {
        assert(verse_views(out@) =~= Seq::empty());
    }
    while k < cs.len()
        invariant
            k <= cs.len(),
            cs@ == m,
            start <= k,
            start == segment_start(m, k as int),
            verse_views(out@) == verses_upto(m, k as int),
        decreases cs.len() - k,
    {
        if cs[k] == '~' {
            let seg = slice_subrange(cs.as_slice(), start, k);
            let ghost prior = out@;
            match read_segment(seg) {
                Some(info) => {
                    out.push(info);
                    proof {
                        assert(verse_views(out@) =~= verse_views(prior).push(info@));
                    }
                },
                None => {},
            }
            start = k + 1;
        }
        k += 1;
    }
    out
}

/// The text that the regex engine makes of `haystack` for a pattern and a
/// replacement, or the refusal of the pattern.
pub open spec fn rewritten(pattern: Seq<char>, haystack: Seq<char>, replacement: Seq<char>) -> Result<
    Seq<char>,
    Violation,
> {
    if pattern_compiles(pattern) {
        Ok(replaced_text(pattern, haystack, replacement))
    } else {
        Err(Violation::PatternRefused)
    }
}

/// The marked text of a body: the body with a delimiter put before each
/// anchor, as the regex engine rewrites it.
pub open spec fn marked_text(body: Seq<char>) -> Seq<char> {
    replaced_text(anchor_pattern(), body, anchor_replacement())
}

/// The verses of a body, or why they cannot be had.
pub open spec fn verses_of(body: Seq<char>) -> Result<Seq<VerseView>, Violation> {
    match rewritten(anchor_pattern(), body, anchor_replacement()) {
        Ok(marked) => Ok(verses_of_marked(marked)),
        Err(e) => Err(e),
    }
}

/// Puts `replacement` in the place of every match of `pattern` in
/// `haystack`, as the regex engine does it; a pattern that the engine
/// refuses is reported.
pub fn rewrite(pattern: &str, haystack: &str, replacement: &str) -> (r: Result<String, Violation>)
    ensures
        match rewritten(pattern@, haystack@, replacement@) {
            Ok(text) => r matches Ok(s) && s@ == text,
            Err(e) => r matches Err(x) && x == e,
        },
{
    match replace_all(pattern, haystack, replacement) {
        Ok(text) => Ok(text),
        Err(_) => Err(Violation::PatternRefused),
    }
}

/// Reads the verses of a book's body: marks its anchors, then reads the
/// verses of the marked text.
pub fn extract_verses(body: &str) -> (r: Result<Vec<VerseInfo>, Violation>)
    ensures
        match verses_of(body@) {
            Ok(v) => r matches Ok(out) && verse_views(out@) == v,
            Err(e) => r matches Err(x) && x == e,
        },
{
    match rewrite("(?P<chapter>\\d+):(?P<verse>\\d+)", body, "~${chapter}:${verse}") {
        Ok(marked) => Ok(split_verses(marked.as_str())),
        Err(e) => Err(e),
    }
}

} // verus!
