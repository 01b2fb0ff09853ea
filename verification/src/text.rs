//! Character-sequence primitives with their mathematical meaning.
//!
//! Text is handled as `Vec<char>`, whose view is the `Seq<char>` that the
//! `str` it came from views as.  Each primitive mirrors the `str` method of
//! the same purpose (`trim`, `starts_with`, `find`, `lines`, integer parsing
//! and formatting) and states that method's documented behaviour.
use vstd::prelude::*;

verus! {

// ---------------------------------------------------------------------------
// Conversions
// ---------------------------------------------------------------------------

/// The characters of a string slice, in order.
pub fn chars_of(s: &str) -> (r: Vec<char>)
    ensures
        r@ == s@,
{
    let mut r: Vec<char> = Vec::new();
    for c in it: s.chars()
        invariant
            r@ == it.seq().take(it.index() as int),
            it.seq() == s@,
    {
        r.push(c);
        assert(r@ =~= it.seq().take(it.index() as int + 1));
    }
    assert(r@ =~= s@);
    r
}

/// Collects characters into a `String` (std's `FromIterator<char>`).
#[verifier::external_body]
pub(crate) fn string_of(v: &Vec<char>) -> (r: String)
    ensures
        r@ == v@,
{
    v.iter().collect()
}

/// The text that `String::from_utf8_lossy` makes of a byte sequence.
pub uninterp spec fn utf8_lossy(bytes: Seq<u8>) -> Seq<char>;

/// Calls `String::from_utf8_lossy`: valid UTF-8 decodes as itself, each
/// invalid sequence becomes U+FFFD.  The contract names the result
/// (`utf8_lossy`); the decoding rules themselves are not restated.
#[verifier::external_body]
pub(crate) fn decode_utf8_lossy(bytes: &[u8]) -> (r: Vec<char>)
    ensures
        r@ == utf8_lossy(bytes@),
{
    String::from_utf8_lossy(bytes).chars().collect()
}

/// Copy of `s[a..b]`.
pub fn sub_vec<T: Copy>(s: &Vec<T>, a: usize, b: usize) -> (r: Vec<T>)
    requires
        a <= b <= s.len(),
    ensures
        r@ == s@.subrange(a as int, b as int),
{
    let mut r: Vec<T> = Vec::new();
    let mut i = a;
    while i < b
        invariant
            a <= i <= b,
            b <= s.len(),
            r@ == s@.subrange(a as int, i as int),
        decreases b - i,
    {
        r.push(s[i]);
        i += 1;
        assert(r@ =~= s@.subrange(a as int, i as int));
    }
    r
}

/// `a` followed by `b`.
pub fn concat_vec<T: Copy>(a: &Vec<T>, b: &Vec<T>) -> (r: Vec<T>)
    ensures
        r@ == a@ + b@,
{
    let mut r: Vec<T> = Vec::new();
    let mut i: usize = 0;
    while i < a.len()
        invariant
            i <= a.len(),
            r@ == a@.subrange(0, i as int),
        decreases a.len() - i,
    {
        r.push(a[i]);
        i += 1;
        assert(r@ =~= a@.subrange(0, i as int));
    }
    let mut j: usize = 0;
    while j < b.len()
        invariant
            j <= b.len(),
            i == a.len(),
            r@ == a@ + b@.subrange(0, j as int),
        decreases b.len() - j,
    {
        r.push(b[j]);
        j += 1;
        assert(r@ =~= a@ + b@.subrange(0, j as int));
    }
    assert(a@.subrange(0, a.len() as int) =~= a@);
    assert(b@.subrange(0, b.len() as int) =~= b@);
    r
}

/// Appends all of `b` to `out`.
pub fn append_vec<T: Copy>(out: &mut Vec<T>, b: &Vec<T>)
    ensures
        final(out)@ == old(out)@ + b@,
{
    let ghost start = out@;
    let mut j: usize = 0;
    while j < b.len()
        invariant
            j <= b.len(),
            out@ == start + b@.subrange(0, j as int),
        decreases b.len() - j,
    {
        out.push(b[j]);
        j += 1;
        assert(out@ =~= start + b@.subrange(0, j as int));
    }
    assert(b@.subrange(0, b.len() as int) =~= b@);
}

/// Appends the characters of a string slice to `out`.
pub fn append_str(out: &mut Vec<char>, s: &str)
    ensures
        final(out)@ == old(out)@ + s@,
{
    let cs = chars_of(s);
    append_vec(out, &cs);
}

// ---------------------------------------------------------------------------
// Whitespace and trimming
// ---------------------------------------------------------------------------

/// The Unicode `White_Space` property, which `char::is_whitespace` tests.
pub open spec fn is_ws(c: char) -> bool {
    ||| ('\u{9}' <= c && c <= '\u{d}')
    ||| c == ' '
    ||| c == '\u{85}'
    ||| c == '\u{a0}'
    ||| c == '\u{1680}'
    ||| ('\u{2000}' <= c && c <= '\u{200a}')
    ||| c == '\u{2028}'
    ||| c == '\u{2029}'
    ||| c == '\u{202f}'
    ||| c == '\u{205f}'
    ||| c == '\u{3000}'
}

pub fn is_whitespace_char(c: char) -> (r: bool)
    ensures
        r == is_ws(c),
{
    ('\u{9}' <= c && c <= '\u{d}') || c == ' ' || c == '\u{85}' || c == '\u{a0}' || c
        == '\u{1680}' || ('\u{2000}' <= c && c <= '\u{200a}') || c == '\u{2028}' || c
        == '\u{2029}' || c == '\u{202f}' || c == '\u{205f}' || c == '\u{3000}'
}

/// Index of the first character at or after `i` that is not whitespace.
pub open spec fn trim_start_from(s: Seq<char>, i: int) -> int
    decreases s.len() - i,
{
    if 0 <= i < s.len() && is_ws(s[i]) {
        trim_start_from(s, i + 1)
    } else {
        i
    }
}

/// One past the last character before `j` (and not before `lo`) that is not whitespace.
pub open spec fn trim_end_to(s: Seq<char>, lo: int, j: int) -> int
    decreases j - lo,
{
    if lo < j && j <= s.len() && is_ws(s[j - 1]) {
        trim_end_to(s, lo, j - 1)
    } else {
        j
    }
}

/// `str::trim`: the sequence without leading and trailing whitespace.
pub open spec fn trim(s: Seq<char>) -> Seq<char> {
    let a = trim_start_from(s, 0);
    s.subrange(a, trim_end_to(s, a, s.len() as int))
}

/// The start of the trimmed part lies within the text, after whitespace only.
pub proof fn lemma_trim_start_bounds(s: Seq<char>, i: int)
    requires
        0 <= i <= s.len(),
    ensures
        i <= trim_start_from(s, i) <= s.len(),
        forall|k: int| i <= k < trim_start_from(s, i) ==> is_ws(#[trigger] s[k]),
        trim_start_from(s, i) < s.len() ==> !is_ws(s[trim_start_from(s, i)]),
    decreases s.len() - i,
{
    if i < s.len() && is_ws(s[i]) {
        lemma_trim_start_bounds(s, i + 1);
    }
}

/// The end of the trimmed part lies within its bounds, before whitespace only.
pub proof fn lemma_trim_end_bounds(s: Seq<char>, lo: int, j: int)
    requires
        0 <= lo <= j <= s.len(),
    ensures
        lo <= trim_end_to(s, lo, j) <= j,
        forall|k: int| trim_end_to(s, lo, j) <= k < j ==> is_ws(#[trigger] s[k]),
        lo < trim_end_to(s, lo, j) ==> !is_ws(s[trim_end_to(s, lo, j) - 1]),
    decreases j - lo,
{
    if lo < j && is_ws(s[j - 1]) {
        lemma_trim_end_bounds(s, lo, j - 1);
    }
}

/// The trimmed sequence is the part of `s` between its whitespace borders.
pub proof fn lemma_trim_shape(s: Seq<char>)
    ensures
        trim_start_from(s, 0) <= trim_end_to(s, trim_start_from(s, 0), s.len() as int) <= s.len(),
        0 <= trim_start_from(s, 0),
        trim(s).len() > 0 ==> !is_ws(trim(s)[0]) && !is_ws(trim(s).last()),
        trim(s).len() == 0 ==> forall|k: int| 0 <= k < s.len() ==> is_ws(#[trigger] s[k]),
{
    lemma_trim_start_bounds(s, 0);
    let a = trim_start_from(s, 0);
    lemma_trim_end_bounds(s, a, s.len() as int);
    let b = trim_end_to(s, a, s.len() as int);
    if trim(s).len() == 0 {
        assert forall|k: int| 0 <= k < s.len() implies is_ws(#[trigger] s[k]) by {
            if k < a {
            } else {
                assert(b <= k);
            }
        }
    }
}

/// Trimming twice trims no more than trimming once.
pub proof fn lemma_trim_idempotent(s: Seq<char>)
    ensures
        trim(trim(s)) == trim(s),
{
    lemma_trim_shape(s);
    let t = trim(s);
    if t.len() > 0 {
        assert(trim_start_from(t, 0) == 0);
        assert(trim_end_to(t, 0, t.len() as int) == t.len());
        assert(t.subrange(0, t.len() as int) =~= t);
    } else {
        assert(trim(t) =~= t);
    }
}

/// `str::trim` on a character vector.
pub fn trim_chars(s: &Vec<char>) -> (r: Vec<char>)
    ensures
        r@ == trim(s@),
{
    let n = s.len();
    let mut a: usize = 0;
    while a < n && is_whitespace_char(s[a])
        invariant
            a <= n,
            n == s.len(),
            trim_start_from(s@, 0) == trim_start_from(s@, a as int),
        decreases n - a,
    {
        a += 1;
    }
    let mut b: usize = n;
    while b > a && is_whitespace_char(s[b - 1])
        invariant
            a <= b <= n,
            n == s.len(),
            trim_start_from(s@, 0) == a,
            trim_end_to(s@, a as int, n as int) == trim_end_to(s@, a as int, b as int),
        decreases b,
    {
        b -= 1;
    }
    sub_vec(s, a, b)
}

// ---------------------------------------------------------------------------
// Matching and searching
// ---------------------------------------------------------------------------

/// `p` occurs in `s` starting at index `i`.
pub open spec fn matches_at(s: Seq<char>, p: Seq<char>, i: int) -> bool {
    0 <= i && i + p.len() <= s.len() && s.subrange(i, i + p.len()) == p
}

pub open spec fn starts_with(s: Seq<char>, p: Seq<char>) -> bool {
    matches_at(s, p, 0)
}

pub open spec fn ends_with(s: Seq<char>, p: Seq<char>) -> bool {
    matches_at(s, p, s.len() - p.len())
}

/// The first index at or after `i` where `p` occurs (`str::find` from `i`).
pub open spec fn find_from(s: Seq<char>, p: Seq<char>, i: int) -> Option<int>
    decreases s.len() - i,
{
    if i < 0 || i + p.len() > s.len() {
        None
    } else if matches_at(s, p, i) {
        Some(i)
    } else if i < s.len() {
        find_from(s, p, i + 1)
    } else {
        None
    }
}

pub open spec fn find(s: Seq<char>, p: Seq<char>) -> Option<int> {
    find_from(s, p, 0)
}

pub open spec fn contains(s: Seq<char>, p: Seq<char>) -> bool {
    find(s, p) is Some
}

/// `find_from` returns the first occurrence, and `None` exactly when there is none.
pub proof fn lemma_find_from(s: Seq<char>, p: Seq<char>, i: int)
    requires
        0 <= i,
    ensures
        find_from(s, p, i) matches Some(k) ==> i <= k && matches_at(s, p, k) && forall|j: int|
            i <= j < k ==> !#[trigger] matches_at(s, p, j),
        find_from(s, p, i) is None ==> forall|j: int| i <= j ==> !#[trigger] matches_at(s, p, j),
    decreases s.len() - i,
{
    if i + p.len() > s.len() {
    } else if matches_at(s, p, i) {
    } else if i < s.len() {
        lemma_find_from(s, p, i + 1);
    } else {
        assert(p.len() == 0);
        assert(s.subrange(i, i + p.len()) =~= p);
    }
}

/// `s` begins with the characters of `p`.
pub open spec fn prefixed(s: Seq<char>, p: Seq<char>) -> bool {
    p.len() <= s.len() && s.subrange(0, p.len() as int) == p
}

/// `s` ends with the characters of `p`.
pub open spec fn suffixed(s: Seq<char>, p: Seq<char>) -> bool {
    p.len() <= s.len() && s.subrange(s.len() - p.len(), s.len() as int) == p
}

/// The characters of `p` appear together somewhere in `s`.
pub open spec fn occurs(s: Seq<char>, p: Seq<char>) -> bool {
    exists|i: int| 0 <= i && i + p.len() <= s.len() && #[trigger] s.subrange(i, i + p.len()) == p
}

/// The searching predicates say what their names say: a prefix, a suffix,
/// an occurrence anywhere.
pub proof fn lemma_search_meaning(s: Seq<char>, p: Seq<char>)
    ensures
        starts_with(s, p) <==> prefixed(s, p),
        ends_with(s, p) <==> suffixed(s, p),
        contains(s, p) <==> occurs(s, p),
{
    lemma_find_from(s, p, 0);
    if occurs(s, p) {
        let i = choose|i: int| 0 <= i && i + p.len() <= s.len() && #[trigger] s.subrange(i, i + p.len()) == p;
        assert(matches_at(s, p, i));
    }
    if contains(s, p) {
        let k = find_from(s, p, 0)->0;
        assert(s.subrange(k, k + p.len()) == p);
    }
}

/// `s[i..i + p.len()] == p`, tested character by character.
pub fn matches_at_exec(s: &Vec<char>, p: &Vec<char>, i: usize) -> (r: bool)
    ensures
        r == matches_at(s@, p@, i as int),
{
    if i > s.len() || p.len() > s.len() - i {
        return false;
    }
    let mut k: usize = 0;
    while k < p.len()
        invariant
            k <= p.len(),
            i + p.len() <= s.len(),
            s@.subrange(i as int, i + k) =~= p@.subrange(0, k as int),
        decreases p.len() - k,
    {
        if s[i + k] != p[k] {
            assert(s@.subrange(i as int, i + p.len())[k as int] != p@[k as int]);
            return false;
        }
        k += 1;
        assert(s@.subrange(i as int, i + k) =~= p@.subrange(0, k as int));
    }
    assert(p@.subrange(0, p.len() as int) =~= p@);
    true
}

pub fn starts_with_str(s: &Vec<char>, p: &str) -> (r: bool)
    ensures
        r == starts_with(s@, p@),
{
    let pc = chars_of(p);
    matches_at_exec(s, &pc, 0)
}

pub fn ends_with_str(s: &Vec<char>, p: &str) -> (r: bool)
    ensures
        r == ends_with(s@, p@),
{
    let pc = chars_of(p);
    if pc.len() > s.len() {
        false
    } else {
        matches_at_exec(s, &pc, s.len() - pc.len())
    }
}

/// First occurrence of `p` in `s` at or after `from`.
pub fn find_vec_from(s: &Vec<char>, p: &Vec<char>, from: usize) -> (r: Option<usize>)
    ensures
        r matches Some(k) ==> find_from(s@, p@, from as int) == Some(k as int),
        r is None ==> find_from(s@, p@, from as int) is None,
{
    let mut i = from;
    while i <= s.len()
        invariant
            from <= i,
            find_from(s@, p@, from as int) == find_from(s@, p@, i as int),
        decreases s.len() + 1 - i,
    {
        if p.len() > s.len() - i {
            return None;
        }
        if matches_at_exec(s, p, i) {
            return Some(i);
        }
        if i == s.len() {
            return None;
        }
        i += 1;
    }
    None
}

pub fn find_str(s: &Vec<char>, p: &str) -> (r: Option<usize>)
    ensures
        r matches Some(k) ==> find(s@, p@) == Some(k as int),
        r is None ==> find(s@, p@) is None,
{
    let pc = chars_of(p);
    find_vec_from(s, &pc, 0)
}

pub fn contains_str(s: &Vec<char>, p: &str) -> (r: bool)
    ensures
        r == contains(s@, p@),
{
    find_str(s, p).is_some()
}

/// The first index at or after `i` holding `c`, or `s.len()` when there is none.
pub open spec fn next_char_from(s: Seq<char>, c: char, i: int) -> int
    decreases s.len() - i,
{
    if i >= s.len() {
        s.len() as int
    } else if s[i] == c {
        i
    } else {
        next_char_from(s, c, i + 1)
    }
}

/// The scan for a character stays within the text and stops at the first match.
pub proof fn lemma_next_char(s: Seq<char>, c: char, i: int)
    ensures
        i <= s.len() ==> i <= next_char_from(s, c, i) <= s.len(),
        i > s.len() ==> next_char_from(s, c, i) == s.len(),
        forall|k: int| i <= k < next_char_from(s, c, i) ==> #[trigger] s[k] != c,
        next_char_from(s, c, i) < s.len() ==> s[next_char_from(s, c, i)] == c,
    decreases s.len() - i,
{
    if i < s.len() && s[i] != c {
        lemma_next_char(s, c, i + 1);
    }
}

pub fn next_char_exec(s: &Vec<char>, c: char, from: usize) -> (r: usize)
    requires
        from <= s.len(),
    ensures
        r == next_char_from(s@, c, from as int),
{
    let mut i = from;
    while i < s.len() && s[i] != c
        invariant
            from <= i <= s.len(),
            next_char_from(s@, c, from as int) == next_char_from(s@, c, i as int),
        decreases s.len() - i,
    {
        i += 1;
    }
    i
}

/// The last index holding `c` (`str::rfind` with a character).
pub open spec fn rfind_char(s: Seq<char>, c: char) -> Option<int> {
    if exists|i: int| 0 <= i < s.len() && s[i] == c {
        Some(choose|i: int| 0 <= i < s.len() && s[i] == c && forall|j: int| i < j < s.len() ==> s[j] != c)
    } else {
        None
    }
}

pub fn rfind_char_exec(s: &Vec<char>, c: char) -> (r: Option<usize>)
    ensures
        r matches Some(k) ==> k < s.len() && s@[k as int] == c && forall|j: int|
            k < j < s.len() ==> s@[j] != c,
        r is None ==> forall|j: int| 0 <= j < s.len() ==> s@[j] != c,
        r matches Some(k) ==> rfind_char(s@, c) == Some(k as int),
        r is None ==> rfind_char(s@, c) is None,
{
    let mut i = s.len();
    while i > 0
        invariant
            i <= s.len(),
            forall|j: int| i <= j < s.len() ==> s@[j] != c,
        decreases i,
    {
        if s[i - 1] == c {
            let k = i - 1;
            proof {
                let w = choose|w: int| 0 <= w < s.len() && s@[w] == c && forall|j: int| w < j < s.len() ==> s@[j] != c;
                assert(0 <= k < s.len() && s@[k as int] == c && forall|j: int| k < j < s.len() ==> s@[j] != c);
                if w < k {
                } else if w > k {
                    assert(s@[w] != c);
                }
            }
            return Some(k);
        }
        i -= 1;
    }
    None
}

// ---------------------------------------------------------------------------
// Lines
// ---------------------------------------------------------------------------

/// A line's terminator is `\n` or `\r\n`: drops the `\r` left before a `\n`.
pub open spec fn strip_cr(l: Seq<char>) -> Seq<char> {
    if l.len() > 0 && l.last() == '\r' {
        l.drop_last()
    } else {
        l
    }
}

/// `str::lines` of the part of `s` from index `i` on.
pub open spec fn lines_from(s: Seq<char>, i: int) -> Seq<Seq<char>>
    decreases s.len() - i,
{
    if i >= s.len() {
        seq![]
    } else {
        let k = next_char_from(s, '\n', i);
        if k < s.len() {
            proof {
                lemma_next_char(s, '\n', i);
            }
            seq![strip_cr(s.subrange(i, k))] + lines_from(s, k + 1)
        } else {
            seq![s.subrange(i, s.len() as int)]
        }
    }
}

/// `str::lines`: the pieces between `\n` (or `\r\n`) terminators; a final
/// terminator does not start an extra empty line.
pub open spec fn lines(s: Seq<char>) -> Seq<Seq<char>> {
    lines_from(s, 0)
}

pub fn strip_cr_exec(l: Vec<char>) -> (r: Vec<char>)
    ensures
        r@ == strip_cr(l@),
{
    let mut l = l;
    if l.len() > 0 && l[l.len() - 1] == '\r' {
        l.pop();
    }
    l
}

/// The texts held by a sequence of character vectors.
pub open spec fn views_of(v: Seq<Vec<char>>) -> Seq<Seq<char>> {
    v.map_values(|x: Vec<char>| x@)
}

/// The text held by an optional character vector.
pub open spec fn opt_chars_view(o: Option<Vec<char>>) -> Option<Seq<char>> {
    match o {
        Some(v) => Some(v@),
        None => None,
    }
}

pub fn lines_exec(s: &Vec<char>) -> (r: Vec<Vec<char>>)
    ensures
        views_of(r@) == lines(s@),
{
    let mut out: Vec<Vec<char>> = Vec::new();
    let mut i: usize = 0;
    while i < s.len()
        invariant
            i <= s.len(),
            views_of(out@) + lines_from(s@, i as int) == lines(s@),
        decreases s.len() - i,
    {
        let k = next_char_exec(s, '\n', i);
        proof {
            lemma_next_char(s@, '\n', i as int);
        }
        let ghost before = views_of(out@);
        if k < s.len() {
            let piece = sub_vec(s, i, k);
            let line = strip_cr_exec(piece);
            out.push(line);
            assert(views_of(out@) =~= before + seq![strip_cr(s@.subrange(i as int, k as int))]);
            i = k + 1;
        } else {
            let line = sub_vec(s, i, s.len());
            out.push(line);
            assert(views_of(out@) =~= before + seq![s@.subrange(i as int, s.len() as int)]);
            i = s.len();
        }
    }
    assert(views_of(out@) + lines_from(s@, i as int) =~= views_of(out@));
    out
}

} // verus!
