use vstd::prelude::*;

verus! {

/// Whether `c` is white space: a character with the Unicode property
/// `White_Space`.
pub open spec fn is_space(c: char) -> bool {
    ||| ('\u{9}' <= c && c <= '\u{d}')
    ||| c == ' '
    ||| c == '\u{85}'
    ||| c == '\u{a0}'
    ||| c == '\u{1680}'
    ||| ('\u{2000}' <= c && c <= '\u{200a}')
    ||| c == '\u{2028}'
    ||| c == '\u{2029}'
    ||| c == '\u{202f}'
    ||| c == '\u{205f}'
    ||| c == '\u{3000}'
}

/// `s` without its leading white space.
pub open spec fn trim_start(s: Seq<char>) -> Seq<char>
    decreases s.len(),
{
    if s.len() > 0 && is_space(s[0]) {
        trim_start(s.drop_first())
    } else {
        s
    }
}

/// `s` without its trailing white space.
pub open spec fn trim_end(s: Seq<char>) -> Seq<char>
    decreases s.len(),
{
    if s.len() > 0 && is_space(s.last()) {
        trim_end(s.drop_last())
    } else {
        s
    }
}

/// `s` without leading and trailing white space.
pub open spec fn trim(s: Seq<char>) -> Seq<char> {
    trim_end(trim_start(s))
}

/// `s` with every run of white space squeezed to one space, and with no
/// white space at either end: the words of `s`, joined by single spaces.
pub open spec fn normalize(s: Seq<char>) -> Seq<char>
    decreases s.len(),
{
    if s.len() == 0 {
        s
    } else {
        let before = normalize(s.drop_last());
        let c = s.last();
        if is_space(c) {
            before
        } else if s.len() >= 2 && is_space(s[s.len() - 2]) && before.len() > 0 {
            before.push(' ').push(c)
        } else {
            before.push(c)
        }
    }
}

/// The lines from `lo` up to, not including, `hi`, each trimmed, without
/// those that are blank.
pub open spec fn trimmed_lines(lines: Seq<Seq<char>>, lo: int, hi: int) -> Seq<Seq<char>>
    decreases hi - lo,
{
    if lo >= hi {
        Seq::empty()
    } else {
        let before = trimmed_lines(lines, lo, hi - 1);
        let line = trim(lines[hi - 1]);
        if line.len() == 0 {
            before
        } else {
            before.push(line)
        }
    }
}

/// There are at most as many trimmed lines as lines.
pub proof fn lemma_trimmed_lines_len(lines: Seq<Seq<char>>, lo: int, hi: int)
    ensures
        trimmed_lines(lines, lo, hi).len() <= if lo <= hi {
            hi - lo
        } else {
            0
        },
    decreases hi - lo,
{
    if lo < hi {
        lemma_trimmed_lines_len(lines, lo, hi - 1);
    }
}

/// Whether `s` is squeezed: its only white space is the space, it does not
/// begin with one, and no space follows another.
pub open spec fn is_squeezed(s: Seq<char>) -> bool {
    forall|i: int|
        0 <= i < s.len() && is_space(#[trigger] s[i]) ==> s[i] == ' ' && 0 < i && !is_space(
            s[i - 1],
        )
}

/// A normalized text is squeezed and does not end with white space.
pub proof fn lemma_normalize_shape(s: Seq<char>)
    ensures
        is_squeezed(normalize(s)),
        normalize(s).len() > 0 ==> !is_space(normalize(s).last()),
    decreases s.len(),
{
    if s.len() > 0 {
        lemma_normalize_shape(s.drop_last());
        let before = normalize(s.drop_last());
        let now = normalize(s);
        assert forall|i: int| 0 <= i < now.len() && is_space(#[trigger] now[i]) implies now[i]
            == ' ' && 0 < i && !is_space(now[i - 1]) by {
            if i < before.len() {
                assert(now[i] == before[i]);
            }
        }
    }
}

/// The characters of `s` that are no white space, in order.
pub open spec fn without_space(s: Seq<char>) -> Seq<char>
    decreases s.len(),
{
    if s.len() == 0 {
        s
    } else if is_space(s.last()) {
        without_space(s.drop_last())
    } else {
        without_space(s.drop_last()).push(s.last())
    }
}

/// Normalizing changes white space only: the other characters stay, in
/// their order.
pub proof fn lemma_normalize_keeps_words(s: Seq<char>)
    ensures
        without_space(normalize(s)) == without_space(s),
    decreases s.len(),
{
    if s.len() > 0 {
        lemma_normalize_keeps_words(s.drop_last());
        let before = normalize(s.drop_last());
        let c = s.last();
        if !is_space(c) {
            assert(before.push(c).drop_last() =~= before);
            assert(before.push(' ').push(c).drop_last() =~= before.push(' '));
            assert(before.push(' ').drop_last() =~= before);
            assert(without_space(before.push(' ')) == without_space(before));
            assert(without_space(before.push(c)) == without_space(before).push(c));
            assert(without_space(before.push(' ').push(c)) == without_space(before).push(c));
        }
    }
}

/// Normalizing a squeezed text takes away at most one space, at its end.
proof fn lemma_normalize_squeezed(s: Seq<char>)
    requires
        is_squeezed(s),
    ensures
        normalize(s) == if s.len() > 0 && is_space(s.last()) {
            s.drop_last()
        } else {
            s
        },
    decreases s.len(),
{
    if s.len() > 0 {
        let init = s.drop_last();
        assert forall|i: int| 0 <= i < init.len() && is_space(#[trigger] init[i]) implies init[i]
            == ' ' && 0 < i && !is_space(init[i - 1]) by {
            assert(init[i] == s[i]);
        }
        lemma_normalize_squeezed(init);
        let c = s.last();
        if is_space(c) {
            assert(s[s.len() - 1] == c);
            assert(init.last() == s[s.len() - 2]);
        } else if init.len() > 0 && is_space(init.last()) {
            assert(init[init.len() - 1] == s[s.len() - 2]);
            assert(init.len() >= 2);
            assert(init.drop_last().push(' ').push(c) =~= s);
        } else {
            assert(init.push(c) =~= s);
        }
    }
}

/// Normalizing twice gives what normalizing once gives.
pub proof fn lemma_normalize_idempotent(s: Seq<char>)
    ensures
        normalize(normalize(s)) == normalize(s),
{
    lemma_normalize_shape(s);
    lemma_normalize_squeezed(normalize(s));
}

/// Whether `needle` stands in `hay` at position `at`.
pub open spec fn occurs_at(hay: Seq<char>, needle: Seq<char>, at: int) -> bool {
    &&& 0 <= at
    &&& at + needle.len() <= hay.len()
    &&& hay.subrange(at, at + needle.len()) == needle
}

/// Whether `needle` is a substring of `hay`.
pub open spec fn contains(hay: Seq<char>, needle: Seq<char>) -> bool {
    exists|at: int| occurs_at(hay, needle, at)
}

/// Whether `hay` begins with `needle`.
pub open spec fn starts_with(hay: Seq<char>, needle: Seq<char>) -> bool {
    occurs_at(hay, needle, 0)
}

/// The views of the strings of `lines`, in order.
pub open spec fn line_views(lines: Seq<String>) -> Seq<Seq<char>> {
    lines.map_values(|s: String| s@)
}

/// Appends one character to a string: `String::push` of the standard library.
/// The contract says that the string afterwards is the string before with `c`
/// added at its end, which is what the standard library documents.
#[verifier::external_body]
fn push_char(s: &mut String, c: char)
    ensures
        final(s)@ == old(s)@.push(c),
{
    s.push(c)
}

/// The characters of `s`, in order.
pub fn to_chars(s: &str) -> (r: Vec<char>)
    ensures
        r@ == s@,
{
    let mut out: Vec<char> = Vec::new();
    for c in it: s.chars()
        invariant
            it.seq() == s@,
            out@ == s@.subrange(0, it.index() as int),
    {
        out.push(c);
    }
    out
}

/// The string whose characters are `cs[lo..hi]`, in order.
pub fn from_chars(cs: &[char], lo: usize, hi: usize) -> (r: String)
    requires
        lo <= hi <= cs.len(),
    ensures
        r@ == cs@.subrange(lo as int, hi as int),
{
    let mut out = String::new();
    let mut i: usize = lo;
    while i < hi
        invariant
            lo <= i <= hi <= cs.len(),
            out@ == cs@.subrange(lo as int, i as int),
        decreases hi - i,
    {
        push_char(&mut out, cs[i]);
        i += 1;
    }
    out
}

/// Tells white space from other characters.
pub fn is_whitespace(c: char) -> (b: bool)
    ensures
        b == is_space(c),
{
    ('\u{9}' <= c && c <= '\u{d}') || c == ' ' || c == '\u{85}' || c == '\u{a0}' || c
        == '\u{1680}' || ('\u{2000}' <= c && c <= '\u{200a}') || c == '\u{2028}' || c
        == '\u{2029}' || c == '\u{202f}' || c == '\u{205f}' || c == '\u{3000}'
}

/// Trimming a sequence that starts at a character which is no white space
/// leaves its start alone.
proof fn lemma_trim_start_skip(s: Seq<char>, lo: int)
    requires
        0 <= lo <= s.len(),
        forall|j: int| 0 <= j < lo ==> is_space(s[j]),
        lo == s.len() || !is_space(s[lo]),
    ensures
        trim_start(s) == s.skip(lo),
    decreases lo,
{
    if lo == 0 {
        assert(s.skip(0) =~= s);
    } else {
        let t = s.drop_first();
        lemma_trim_start_skip(t, lo - 1);
        assert(t.skip(lo - 1) =~= s.skip(lo));
    }
}

proof fn lemma_trim_end_take(s: Seq<char>, hi: int)
    requires
        0 <= hi <= s.len(),
        forall|j: int| hi <= j < s.len() ==> is_space(s[j]),
        hi == 0 || !is_space(s[hi - 1]),
    ensures
        trim_end(s) == s.take(hi),
    decreases s.len() - hi,
{
    if hi == s.len() {
        assert(s.take(hi) =~= s);
    } else {
        let t = s.drop_last();
        lemma_trim_end_take(t, hi);
        assert(t.take(hi) =~= s.take(hi));
    }
}

/// The bounds of `cs[lo..hi]` without its leading and trailing white space.
pub fn trim_bounds(cs: &[char], lo: usize, hi: usize) -> (r: (usize, usize))
    requires
        lo <= hi <= cs.len(),
    ensures
        lo <= r.0 <= r.1 <= hi,
        cs@.subrange(r.0 as int, r.1 as int) == trim(cs@.subrange(lo as int, hi as int)),
{
    let mut a: usize = lo;
    while a < hi && is_whitespace(cs[a])
        invariant
            lo <= a <= hi <= cs.len(),
            forall|j: int| lo <= j < a ==> is_space(cs@[j]),
        decreases hi - a,
    {
        a += 1;
    }
    let mut b: usize = hi;
    while b > a && is_whitespace(cs[b - 1])
        invariant
            a <= b <= hi <= cs.len(),
            forall|j: int| b <= j < hi ==> is_space(cs@[j]),
        decreases b,
    {
        b -= 1;
    }
    proof {
        let s = cs@.subrange(lo as int, hi as int);
        lemma_trim_start_skip(s, a - lo);
        let t = s.skip(a - lo);
        assert(t =~= cs@.subrange(a as int, hi as int));
        lemma_trim_end_take(t, b - a);
        assert(t.take(b - a) =~= cs@.subrange(a as int, b as int));
    }
    (a, b)
}

/// The words of `cs`, joined by single spaces.
pub fn normalize_chars(cs: &[char]) -> (r: Vec<char>)
    ensures
        r@ == normalize(cs@),
{
    let mut out: Vec<char> = Vec::new();
    let mut i: usize = 0;
    while i < cs.len()
        invariant
            i <= cs.len(),
            out@ == normalize(cs@.take(i as int)),
        decreases cs.len() - i,
    {
        let c = cs[i];
        proof {
            let s = cs@.take(i + 1);
            assert(s.drop_last() =~= cs@.take(i as int));
            assert(s.last() == c);
            if i > 0 {
                assert(s[s.len() - 2] == cs@[i - 1]);
            }
        }
        if !is_whitespace(c) {
            if i > 0 && is_whitespace(cs[i - 1]) && out.len() > 0 {
                out.push(' ');
            }
            out.push(c);
        }
        i += 1;
    }
    proof {
        assert(cs@.take(cs.len() as int) =~= cs@);
    }
    out
}

/// Whether `needle` stands in `hay` at position `at`.
pub fn matches_at(hay: &[char], needle: &[char], at: usize) -> (b: bool)
    requires
        at + needle.len() <= hay.len(),
    ensures
        b == occurs_at(hay@, needle@, at as int),
{
    let mut k: usize = 0;
    while k < needle.len()
        invariant
            k <= needle.len(),
            at + needle.len() <= hay.len(),
            forall|j: int| 0 <= j < k ==> hay@[at + j] == needle@[j],
        decreases needle.len() - k,
    {
        if hay[at + k] != needle[k] {
            proof {
                let sub = hay@.subrange(at as int, at + needle.len());
                assert(sub[k as int] == hay@[at + k]);
            }
            return false;
        }
        k += 1;
    }
    proof {
        assert(hay@.subrange(at as int, at + needle.len()) =~= needle@);
    }
    true
}

/// Whether `needle` is a substring of `hay`.
pub fn contains_chars(hay: &[char], needle: &[char]) -> (b: bool)
    ensures
        b == contains(hay@, needle@),
{
    if needle.len() > hay.len() {
        return false;
    }
    let last: usize = hay.len() - needle.len();
    let mut at: usize = 0;
    loop
        invariant
            at <= last,
            last + needle.len() == hay.len(),
            forall|j: int| 0 <= j < at ==> !occurs_at(hay@, needle@, j),
        decreases last - at,
    {
        if matches_at(hay, needle, at) {
            return true;
        }
        if at == last {
            return false;
        }
        at += 1;
    }
}

/// Whether `hay` begins with `needle`.
pub fn starts_with_chars(hay: &[char], needle: &[char]) -> (b: bool)
    ensures
        b == starts_with(hay@, needle@),
{
    needle.len() <= hay.len() && matches_at(hay, needle, 0)
}

} // verus!
