//! Character-level helpers: whitespace, trimming, splitting into lines,
//! and moving between `str` / `String` and `Vec<char>`.
use vstd::prelude::*;

verus! {

/// Unicode `White_Space`, the set that `str::trim` strips.
pub open spec fn is_ws(c: char) -> bool {
    ||| c == '\t'
    ||| c == '\n'
    ||| c == '\u{0B}'
    ||| c == '\u{0C}'
    ||| c == '\r'
    ||| c == ' '
    ||| c == '\u{85}'
    ||| c == '\u{A0}'
    ||| c == '\u{1680}'
    ||| ('\u{2000}' as u32 <= c as u32 && c as u32 <= '\u{200A}' as u32)
    ||| c == '\u{2028}'
    ||| c == '\u{2029}'
    ||| c == '\u{202F}'
    ||| c == '\u{205F}'
    ||| c == '\u{3000}'
}

/// Index of the first non-whitespace character at or after `i`.
pub open spec fn skip_ws(s: Seq<char>, i: int) -> int
    decreases s.len() - i,
{
    if 0 <= i < s.len() && is_ws(s[i]) {
        skip_ws(s, i + 1)
    } else {
        i
    }
}

/// End of the range `lo..j` once trailing whitespace is dropped.
pub open spec fn skip_ws_back(s: Seq<char>, lo: int, j: int) -> int
    decreases j - lo,
{
    if lo < j && j <= s.len() && is_ws(s[j - 1]) {
        skip_ws_back(s, lo, j - 1)
    } else {
        j
    }
}

/// `s` without leading and trailing whitespace.
pub open spec fn trim(s: Seq<char>) -> Seq<char> {
    let a = skip_ws(s, 0);
    s.subrange(a, skip_ws_back(s, a, s.len() as int))
}

/// Index of the first line feed at or after `i`, or the length.
pub open spec fn line_end(s: Seq<char>, i: int) -> int
    decreases s.len() - i,
{
    if 0 <= i < s.len() && s[i] != '\n' {
        line_end(s, i + 1)
    } else {
        i
    }
}

/// The lines of `s` from position `i` on, split at each line feed.
pub open spec fn lines_from(s: Seq<char>, i: int) -> Seq<Seq<char>>
    decreases s.len() - i,
    via lines_from_decreases
{
    let e = line_end(s, i);
    if 0 <= i && e < s.len() {
        seq![s.subrange(i, e)] + lines_from(s, e + 1)
    } else {
        seq![s.subrange(i, s.len() as int)]
    }
}

#[via_fn]
proof fn lines_from_decreases(s: Seq<char>, i: int) {
    if 0 <= i <= s.len() {
        lemma_line_end_bounds(s, i);
    }
}

/// The lines of `s`: the pieces between line feeds (at least one).
pub open spec fn lines(s: Seq<char>) -> Seq<Seq<char>> {
    lines_from(s, 0)
}

pub proof fn lemma_line_end_bounds(s: Seq<char>, i: int)
    requires
        0 <= i <= s.len(),
    ensures
        i <= line_end(s, i) <= s.len(),
        line_end(s, i) < s.len() ==> s[line_end(s, i)] == '\n',
    decreases s.len() - i,
{
    if i < s.len() && s[i] != '\n' {
        lemma_line_end_bounds(s, i + 1);
    }
}

/// Whether `c` is white space in the sense of `char::is_whitespace`.
pub fn is_whitespace(c: char) -> (r: bool)
    ensures
        r == is_ws(c),
{
    let u = c as u32;
    c == '\t' || c == '\n' || c == '\u{0B}' || c == '\u{0C}' || c == '\r' || c == ' '
        || c == '\u{85}' || c == '\u{A0}' || c == '\u{1680}' || (0x2000 <= u && u <= 0x200A)
        || c == '\u{2028}' || c == '\u{2029}' || c == '\u{202F}' || c == '\u{205F}'
        || c == '\u{3000}'
}

/// The characters of `s`, in order.
pub fn chars_of(s: &str) -> (r: Vec<char>)
    ensures
        r@ == s@,
{
    let mut r: Vec<char> = Vec::new();
    for c in it: s.chars()
        invariant
            r@ == it.seq().subrange(0, it.index() as int),
            it.seq() == s@,
    {
        r.push(c);
    }
    r
}


/// Relies on `String::push`: appends one character at the end.
#[verifier::external_body]
pub(crate) fn push_char(s: &mut String, c: char)
    ensures
        final(s)@ == old(s)@.push(c),
{
    s.push(c);
}

/// The characters `s[lo..hi]` as a `String`.
pub fn string_of(s: &Vec<char>, lo: usize, hi: usize) -> (r: String)
    requires
        lo <= hi <= s.len(),
    ensures
        r@ == s@.subrange(lo as int, hi as int),
{
    let mut r = String::new();
    let mut k: usize = lo;
    while k < hi
        invariant
            lo <= k <= hi <= s.len(),
            r@ == s@.subrange(lo as int, k as int),
        decreases hi - k,
    {
        push_char(&mut r, s[k]);
        k = k + 1;
        assert(r@ =~= s@.subrange(lo as int, k as int));
    }
    r
}

/// `s` without leading and trailing whitespace.
pub fn trim_chars(s: &Vec<char>) -> (r: Vec<char>)
    ensures
        r@ == trim(s@),
{
    let n = s.len();
    let mut a: usize = 0;
    while a < n && is_whitespace(s[a])
        invariant
            a <= n == s.len(),
            skip_ws(s@, a as int) == skip_ws(s@, 0),
        decreases n - a,
    {
        a = a + 1;
    }
    let mut b: usize = n;
    while b > a && is_whitespace(s[b - 1])
        invariant
            a <= b <= n == s.len(),
            skip_ws_back(s@, a as int, b as int) == skip_ws_back(s@, a as int, n as int),
        decreases b - a,
    {
        b = b - 1;
    }
    sub_chars(s, a, b)
}

/// The character sequences held by a sequence of vectors.
pub open spec fn views(v: Seq<Vec<char>>) -> Seq<Seq<char>> {
    Seq::new(v.len(), |i: int| v[i]@)
}

/// The lines of `s`, split at each line feed.
pub fn split_lines(s: &Vec<char>) -> (r: Vec<Vec<char>>)
    ensures
        views(r@) == lines(s@),
{
    let n = s.len();
    let mut r: Vec<Vec<char>> = Vec::new();
    let mut cur: Vec<char> = Vec::new();
    let mut start: usize = 0;
    let mut k: usize = 0;
    while k < n
        invariant
            start <= k <= n == s.len(),
            cur@ == s@.subrange(start as int, k as int),
            line_end(s@, start as int) == line_end(s@, k as int),
            views(r@) + lines_from(s@, start as int) == lines(s@),
        decreases n - k,
    {
        if s[k] == '\n' {
            proof {
                lemma_line_end_bounds(s@, k as int);
            }
            let ghost old_r = views(r@);
            r.push(cur);
            assert(views(r@) =~= old_r.push(s@.subrange(start as int, k as int)));
            assert(lines_from(s@, start as int) =~= seq![s@.subrange(start as int, k as int)]
                + lines_from(s@, k + 1));
            assert(views(r@) + lines_from(s@, k + 1) =~= lines(s@));
            cur = Vec::new();
            k = k + 1;
            start = k;
        } else {
            cur.push(s[k]);
            k = k + 1;
            assert(cur@ =~= s@.subrange(start as int, k as int));
        }
    }
    let ghost old_r = views(r@);
    r.push(cur);
    assert(views(r@) =~= old_r.push(s@.subrange(start as int, n as int)));
    assert(views(r@) =~= lines(s@));
    r
}


/// The characters `s[lo..hi]` as a new vector.
pub fn sub_chars(s: &Vec<char>, lo: usize, hi: usize) -> (r: Vec<char>)
    requires
        lo <= hi <= s.len(),
    ensures
        r@ == s@.subrange(lo as int, hi as int),
{
    let mut r: Vec<char> = Vec::new();
    let mut k: usize = lo;
    while k < hi
        invariant
            lo <= k <= hi <= s.len(),
            r@ == s@.subrange(lo as int, k as int),
        decreases hi - k,
    {
        r.push(s[k]);
        k = k + 1;
        assert(r@ =~= s@.subrange(lo as int, k as int));
    }
    r
}

} // verus!
